//! The array-backed producer: the fast path over a random-access blob.

use crate::iters::{
    SIMDArray, SIMDArrayMut, SIMDIterable, SIMDIterator, SIMDIteratorMut, SIMDObject, SIMDSized,
    UnsafeIterator,
};
use crate::model::{
    full_count, lemma_full_count, lemma_full_count_positive, lemma_full_count_unique,
    lemma_partial_shape, lemma_windows_shape, lemma_windows_step, lemma_windows_suffix, mutator,
    partial, rewritten, windows,
};
use crate::vecs::Packed;
use vstd::prelude::*;

verus! {

/// A slice-backed iterator which can automatically pack its constituent
/// elements into vectors.
pub struct SIMDIter<A: SIMDArray> {
    pub position: usize,
    pub data: A,
    pub default: A::Vector,
}

/// Construction of a producer from a blob and a default vector.
pub trait IntoSIMDIterator: SIMDArray {
    /// Wrap this blob in a producer whose cursor stands at its first scalar
    /// and whose partial vector is padded from `default`.
    fn simd_iter(self, default: Self::Vector) -> (it: SIMDIter<Self>)
        requires
            self.wf(),
        ensures
            it.wf(),
            it.position == 0,
            it.data == self,
            it.default == default,
    {
        SIMDIter { position: 0, data: self, default: default }
    }
}

impl<A: SIMDArray> IntoSIMDIterator for A {
}

impl<A: SIMDArray> SIMDObject for SIMDIter<A> {
    type Scalar = A::Scalar;

    type Vector = A::Vector;

    open spec fn wf(&self) -> bool {
        &&& self.data.wf()
        &&& self.position <= self.data.spec_scalar_len()
    }
}

impl<A: SIMDArray> SIMDSized for SIMDIter<A> {
    open spec fn spec_scalar_len(&self) -> nat {
        self.data.spec_scalar_len()
    }

    fn scalar_len(&self) -> (n: usize) {
        self.data.scalar_len()
    }
}

impl<A: SIMDArray> SIMDArray for SIMDIter<A> {
    open spec fn scalars(&self) -> Seq<A::Scalar> {
        self.data.scalars()
    }

    proof fn lemma_scalars(&self) {
        self.data.lemma_scalars();
    }

    fn load(&self, offset: usize) -> (v: A::Vector) {
        self.data.load(offset)
    }

    fn load_unchecked(&self, offset: usize) -> (v: A::Vector) {
        let v = self.data.load_unchecked(offset);
        assert(self.scalars() == self.data.scalars());
        v
    }

    fn load_scalar(&self, offset: usize) -> (s: A::Scalar) {
        self.data.load_scalar(offset)
    }

    fn load_scalar_unchecked(&self, offset: usize) -> (s: A::Scalar) {
        self.data.load_scalar_unchecked(offset)
    }
}

impl<A: SIMDArray> SIMDIterable for SIMDIter<A> {
    open spec fn spec_scalar_pos(&self) -> nat {
        self.position as nat
    }

    open spec fn spec_len(&self) -> nat {
        self.data.spec_scalar_len() / A::Vector::spec_width()
    }

    open spec fn padding(&self) -> Seq<A::Scalar> {
        self.default.lanes()
    }

    open spec fn pending(&self) -> Seq<Seq<A::Scalar>> {
        windows(self.data.scalars(), self.position as nat, A::Vector::spec_width())
    }

    open spec fn tail(&self) -> Option<(Seq<A::Scalar>, nat)> {
        partial(
            self.data.scalars(),
            self.position as nat,
            A::Vector::spec_width(),
            self.default.lanes(),
        )
    }

    /// Nothing is applied to the scalars of a buffer: they are what they
    /// are.
    open spec fn attested(&self, k: int) -> bool {
        true
    }

    /// The cursor can be moved up to the end of the buffer.
    open spec fn can_advance(&self, amount: usize) -> bool {
        &&& self.position + amount <= self.data.spec_scalar_len()
        &&& self.position + amount <= usize::MAX
    }

    proof fn lemma_shape(&self) {
        let w = A::Vector::spec_width();
        let len = self.data.spec_scalar_len();
        A::Vector::lemma_width();
        self.data.lemma_scalars();
        self.default.lemma_lanes();
        lemma_windows_shape(self.data.scalars(), self.position as nat, w);
        lemma_partial_shape(self.data.scalars(), self.position as nat, w, self.default.lanes());
        vstd::arithmetic::div_mod::lemma_div_is_ordered(
            len - self.position,
            len as int,
            w as int,
        );
    }

    fn scalar_pos(&self) -> (n: usize) {
        self.position
    }

    fn advance(&mut self, amount: usize)
        ensures
            final(self).position == old(self).position + amount,
            final(self).data == old(self).data,
            final(self).default == old(self).default,
    {
        self.position += amount
    }

    fn finalize(&mut self)
        ensures
            final(self).position == old(self).data.spec_scalar_len(),
            final(self).data == old(self).data,
            final(self).default == old(self).default,
    {
        let end = self.scalar_len() - self.scalar_pos();
        self.advance(end);
        proof {
            A::Vector::lemma_width();
            self.data.lemma_scalars();
            lemma_full_count(self.data.spec_scalar_len(), self.position as nat, A::Vector::spec_width());
        }
    }

    fn default(&self) -> (v: A::Vector)
        ensures
            v == self.default,
    {
        self.default
    }

    fn next(&mut self) -> (r: Option<A::Vector>)
        ensures
            final(self).data == old(self).data,
            final(self).default == old(self).default,
            r is Some ==> final(self).position == old(self).position + A::Vector::spec_width(),
            r is None ==> final(self).position == old(self).position,
    {
        proof {
            A::Vector::lemma_width();
            self.data.lemma_scalars();
            lemma_full_count_positive(
                self.data.spec_scalar_len(),
                self.position as nat,
                A::Vector::spec_width(),
            );
        }
        if self.width() <= self.scalar_len() - self.position {
            let ret = self.load_unchecked(self.position);
            let width = self.width();
            proof {
                lemma_windows_step(
                    self.data.scalars(),
                    self.position as nat,
                    A::Vector::spec_width(),
                    self.default.lanes(),
                );
            }
            self.advance(width);
            Some(ret)
        } else {
            None
        }
    }

    fn len(&self) -> (n: usize) {
        proof {
            A::Vector::lemma_width();
        }
        self.data.scalar_len() / self.width()
    }
}

impl<A: SIMDArray> SIMDIterator for SIMDIter<A> {
    fn end(&mut self) -> (r: Option<(A::Vector, usize)>)
        ensures
            final(self).position == old(self).data.spec_scalar_len(),
            final(self).data == old(self).data,
            final(self).default == old(self).default,
    {
        proof {
            A::Vector::lemma_width();
            self.data.lemma_scalars();
            lemma_full_count(
                self.data.spec_scalar_len(),
                self.position as nat,
                A::Vector::spec_width(),
            );
            assert(0 * A::Vector::spec_width() == 0) by (nonlinear_arith);
        }
        if self.scalar_pos() < self.scalar_len() {
            let empty_amt = self.width() - (self.scalar_len() - self.scalar_pos());
            let offset = self.scalar_pos();
            let ret = self.end_unchecked(offset, empty_amt);
            self.finalize();
            Some((ret, empty_amt))
        } else {
            None
        }
    }
}

impl<A: SIMDArray> UnsafeIterator for SIMDIter<A> {
    fn next_unchecked(&mut self, offset: usize) -> (v: A::Vector) {
        self.load_unchecked(offset)
    }

    /// Where a whole vector fits into the data, one right-aligned vector
    /// load does it, merged over the default vector; otherwise the scalars
    /// are loaded one by one into the lanes behind the empty ones.
    fn end_unchecked(&mut self, offset: usize, empty_amt: usize) -> (v: A::Vector)
    {
        proof {
            self.data.lemma_scalars();
            self.default.lemma_lanes();
            A::Vector::lemma_width();
        }
        let width = <A::Vector as Packed>::width();
        let len = self.data.scalar_len();
        let mut ret = self.default;
        if width < len {
            // Right-align the partial vector to ensure the load is vectorized
            ret = self.data.load_unchecked(len - width);
            ret = self.default.merge_partitioned(ret, empty_amt);
            assert(ret.lanes() =~= self.default.lanes().subrange(0, empty_amt as int)
                + self.data.scalars().subrange(offset as int, len as int));
        } else {
            let mut i = offset;
            while i < len
                invariant
                    self.data.wf(),
                    offset <= i <= len == self.data.spec_scalar_len() <= width,
                    width == A::Vector::spec_width(),
                    self.data.scalars().len() == len,
                    self.default.lanes().len() == width,
                    empty_amt == width - (len - offset),
                    ret.lanes().len() == width,
                    forall|j: int| 0 <= j < empty_amt ==> ret.lanes()[j] == self.default.lanes()[j],
                    forall|j: int|
                        offset <= j < i ==> ret.lanes()[j - offset + empty_amt]
                            == self.data.scalars()[j],
                decreases len - i,
            {
                ret = ret.replace_unchecked(i - offset + empty_amt, self.data.load_scalar_unchecked(i));
                i += 1;
            }
            assert(ret.lanes() =~= self.default.lanes().subrange(0, empty_amt as int)
                + self.data.scalars().subrange(offset as int, len as int));
        }
        ret
    }
}

/// Run the mutator on a copy of `v` and return what it left.
fn mutate<V: Packed, F: FnMut(&mut V) -> ()>(func: &mut F, v: V) -> (r: V)
    requires
        mutator::<V, F>(*old(func)),
    ensures
        *final(func) == *old(func),
        forall|g: spec_fn(Seq<V::Scalar>) -> Seq<V::Scalar>|
            (forall|x: &mut V| #[trigger]
                call_ensures(*old(func), (x,), ()) ==> (*final(x)).lanes() == g((*x).lanes()))
                ==> r.lanes() == #[trigger] g(v.lanes()),
{
    let mut out = v;
    func(&mut out);
    out
}

impl<A: SIMDArrayMut> SIMDIteratorMut for SIMDIter<A> {
    fn simd_for_each<F>(&mut self, func: F) where F: FnMut(&mut A::Vector) -> ()
        ensures
            final(self).position == old(self).data.spec_scalar_len(),
            final(self).default == old(self).default,
            forall|g: spec_fn(Seq<A::Scalar>) -> Seq<A::Scalar>|
                (forall|x: &mut A::Vector| #[trigger]
                    call_ensures(func, (x,), ()) ==> (*final(x)).lanes() == g((*x).lanes()))
                    ==> final(self).data.scalars() == #[trigger] rewritten(
                    old(self).data.scalars(),
                    old(self).position as nat,
                    A::Vector::spec_width(),
                    old(self).default.lanes(),
                    g,
                ),
    {
        let ghost f0 = func;
        let mut func = func;
        let mut lastvec = <A::Vector as Packed>::default();
        let start = self.position;
        let ghost w = A::Vector::spec_width();
        let ghost s0 = old(self).data.scalars();
        let ghost len = old(self).data.spec_scalar_len();
        let ghost pad = old(self).default.lanes();
        let ghost outs: Seq<Seq<A::Scalar>> = Seq::empty();
        proof {
            A::Vector::lemma_width();
            self.data.lemma_scalars();
            self.default.lemma_lanes();
            lemma_full_count(len, start as nat, w);
            assert(0 * w == 0) by (nonlinear_arith);
            assert(outs.flatten() =~= Seq::<A::Scalar>::empty());
            assert(self.data.scalars() =~= s0.subrange(0, start as int) + outs.flatten() + s0.skip(
                start as int,
            ));
        }
        loop
            invariant
                self.data.wf(),
                func == f0,
                mutator::<A::Vector, F>(f0),
                w == A::Vector::spec_width(),
                0 < w,
                self.default == old(self).default,
                pad == self.default.lanes(),
                pad.len() == w,
                len == self.data.spec_scalar_len() == s0.len(),
                self.data.scalars().len() == len,
                start <= self.position <= len,
                self.position == start + outs.len() * w,
                outs.len() <= full_count(len, start as nat, w),
                outs.flatten().len() == outs.len() * w,
                forall|j: int| 0 <= j < outs.len() ==> (#[trigger] outs[j]).len() == w,
                self.data.scalars() == s0.subrange(0, start as int) + outs.flatten() + s0.skip(
                    self.position as int,
                ),
                forall|g: spec_fn(Seq<A::Scalar>) -> Seq<A::Scalar>, j: int|
                    (forall|x: &mut A::Vector| #[trigger]
                        call_ensures(f0, (x,), ()) ==> (*final(x)).lanes() == g((*x).lanes()))
                        && 0 <= j < outs.len() ==> outs[j] == #[trigger] g(
                        windows(s0, start as nat, w)[j],
                    ),
                outs.len() > 0 ==> lastvec.lanes() == outs.last(),
            ensures
                self.position + w > len,
            decreases len - self.position,
        {
            proof {
                lemma_full_count_positive(len, self.position as nat, w);
                assert(self.data.scalars().skip(self.position as int) =~= s0.skip(
                    self.position as int,
                ));
                lemma_windows_suffix(self.data.scalars(), s0, self.position as nat, w, pad);
                if self.position + w <= len {
                    lemma_windows_step(s0, self.position as nat, w, pad);
                }
            }
            let ghost at = self.position;
            match self.next() {
                Some(v) => {
                    let v = mutate(&mut func, v);
                    lastvec = v;
                    let offset = self.scalar_pos() - self.width();
                    proof {
                        v.lemma_lanes();
                    }
                    self.data.store_unchecked(v, offset);
                    proof {
                        let k = outs.len();
                        let grown = outs.push(v.lanes());
                        outs.lemma_flatten_push(v.lanes());
                        assert((k + 1) * w == k * w + w) by (nonlinear_arith);
                        assert(k + 1 <= full_count(len, start as nat, w)) by {
                            lemma_full_count(len, start as nat, w);
                            let c = full_count(len, start as nat, w);
                            if c <= k {
                                assert(c * w <= k * w) by (nonlinear_arith)
                                    requires
                                        c <= k,
                                        0 < w,
                                ;
                            }
                        }
                        assert(windows(s0, start as nat, w)[k as int] == s0.subrange(
                            at as int,
                            at + w,
                        ));
                        assert(self.data.scalars() =~= s0.subrange(0, start as int)
                            + grown.flatten() + s0.skip(self.position as int));
                        outs = grown;
                    }
                },
                None => {
                    break ;
                },
            }
        }
        proof {
            lemma_full_count_unique(len, start as nat, w, outs.len());
            lemma_full_count_unique(len, self.position as nat, w, 0);
            assert(self.data.scalars().skip(self.position as int) =~= s0.skip(
                self.position as int,
            ));
            lemma_windows_suffix(self.data.scalars(), s0, self.position as nat, w, pad);
            assert(0 * w == 0) by (nonlinear_arith);
        }
        let offset = self.scalar_pos();
        let ghost held = self.data.scalars();
        match self.end() {
            Some((p, n)) => {
                let p = mutate(&mut func, p);
                let width = self.width();
                proof {
                    p.lemma_lanes();
                    lastvec.lemma_lanes();
                }
                if offset > start {
                    // We stored a vector in this buffer; overwrite the unused elements
                    proof {
                        assert(outs.len() > 0) by {
                            if outs.len() == 0 {
                                assert(outs.len() * w == 0) by (nonlinear_arith)
                                    requires
                                        outs.len() == 0,
                                ;
                            }
                        }
                        assert(outs.len() * w >= w) by (nonlinear_arith)
                            requires
                                outs.len() >= 1,
                                0 < w,
                        ;
                    }
                    self.data.store_unchecked(p, offset - n);
                    self.data.store_unchecked(lastvec, offset - width);
                    proof {
                        let init = outs.drop_last();
                        init.lemma_flatten_push(outs.last());
                        assert(init.push(outs.last()) =~= outs);
                        assert(self.data.scalars() =~= s0.subrange(0, start as int)
                            + outs.flatten() + p.lanes().skip(n as int));
                    }
                } else {
                    // No vector was stored; store elementwise
                    proof {
                        assert(outs.len() == 0) by {
                            if outs.len() > 0 {
                                assert(outs.len() * w >= w) by (nonlinear_arith)
                                    requires
                                        outs.len() >= 1,
                                        0 < w,
                                ;
                            }
                        }
                        assert(outs.flatten() =~= Seq::<A::Scalar>::empty());
                    }
                    let mut i: usize = 0;
                    while i < width - n
                        invariant
                            self.data.wf(),
                            i <= width - n,
                            n < width == w == A::Vector::spec_width(),
                            p.lanes().len() == w,
                            offset + (w - n) == len == self.data.spec_scalar_len(),
                            self.data.scalars().len() == len == held.len(),
                            self.position == len,
                            self.default == old(self).default,
                            forall|j: int|
                                offset <= j < offset + i ==> self.data.scalars()[j] == p.lanes()[j
                                    - offset + n],
                            forall|j: int|
                                0 <= j < len && !(offset <= j < offset + i)
                                    ==> self.data.scalars()[j] == held[j],
                        decreases width - n - i,
                    {
                        self.data.store_scalar_unchecked(p.extract_unchecked(i + n), offset + i);
                        proof {
                            self.data.lemma_scalars();
                        }
                        i += 1;
                    }
                    proof {
                        assert(self.data.scalars() =~= s0.subrange(0, start as int)
                            + outs.flatten() + p.lanes().skip(n as int));
                    }
                }
                proof {
                    let whole = windows(s0, start as nat, w);
                    assert forall|g: spec_fn(Seq<A::Scalar>) -> Seq<A::Scalar>|
                        (forall|x: &mut A::Vector| #[trigger]
                            call_ensures(f0, (x,), ()) ==> (*final(x)).lanes() == g(
                                (*x).lanes(),
                            )) implies self.data.scalars() == #[trigger] rewritten(
                        s0,
                        start as nat,
                        w,
                        pad,
                        g,
                    ) by {
                        assert(outs =~= whole.map_values(g));
                    }
                }
            },
            None => {
                proof {
                    let whole = windows(s0, start as nat, w);
                    assert forall|g: spec_fn(Seq<A::Scalar>) -> Seq<A::Scalar>|
                        (forall|x: &mut A::Vector| #[trigger]
                            call_ensures(f0, (x,), ()) ==> (*final(x)).lanes() == g(
                                (*x).lanes(),
                            )) implies self.data.scalars() == #[trigger] rewritten(
                        s0,
                        start as nat,
                        w,
                        pad,
                        g,
                    ) by {
                        assert(outs =~= whole.map_values(g));
                        assert(self.data.scalars() =~= rewritten(
                            s0,
                            start as nat,
                            w,
                            pad,
                            g,
                        ));
                    }
                }
            },
        }
    }
}

} // verus!
