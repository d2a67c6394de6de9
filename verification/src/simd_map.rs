//! The lazy map over a producer: a pure function applied to every vector,
//! which may change the scalar type and with it the width.

use crate::iters::{SIMDIterable, SIMDIterator, SIMDObject, SIMDSized};
use crate::model::{lane_defined, lane_image, transform};
use crate::vecs::{Packable, Packed};
use vstd::prelude::*;

verus! {

/// A lazy mapping iterator which applies its function to a stream of vectors.
pub struct SIMDMap<I, F> where I: SIMDIterable {
    pub iter: I,
    pub func: F,
}

/// A count of scalars of the size `size_in`, rescaled to scalars of the
/// size `size_out`: how many of those hold the same bytes, rounded down. A
/// map counts its length, its cursor and the empty lanes of its partial
/// vector this way.
pub open spec fn rescaled(empty: nat, size_in: nat, size_out: nat) -> nat {
    (empty * size_in / size_out) as nat
}

/// Rescale a count of scalars of the size `size_in` to scalars of the size
/// `size_out`.
pub fn rescale(count: usize, size_in: usize, size_out: usize) -> (r: usize)
    requires
        0 < size_out,
        count * size_in <= usize::MAX,
    ensures
        r == rescaled(count as nat, size_in as nat, size_out as nat),
{
    count * size_in / size_out
}

/// The lanes of a mapped vector are as many as the vector type has.
pub proof fn lemma_lane_image_len<V: Packed, A: Packed, F: FnMut(V) -> A>(
    f: F,
    lanes: Seq<V::Scalar>,
)
    ensures
        lane_image::<V, A, F>(f, lanes).len() == A::spec_width(),
{
    if lane_defined::<V, A, F>(f, lanes) {
        let (v, r) = choose|v: V, r: A| v.lanes() == lanes && #[trigger] call_ensures(f, (v,), r);
        r.lemma_lanes();
    }
}

/// A cursor which moves by `under` scalars of one size moves by `amount`
/// scalars of the other, where the two stretches hold the same bytes.
pub proof fn lemma_rescaled_sum(pos: nat, under: nat, amount: nat, size_in: nat, size_out: nat)
    requires
        0 < size_in,
        0 < size_out,
        under * size_in == amount * size_out,
    ensures
        rescaled(pos + under, size_in, size_out) == rescaled(pos, size_in, size_out) + amount,
{
    assert((pos + under) * size_in == size_out * amount + pos * size_in) by (nonlinear_arith)
        requires
            under * size_in == amount * size_out,
    ;
    vstd::arithmetic::div_mod::lemma_div_multiples_vanish_fancy(
        amount as int,
        0,
        size_out as int,
    );
    vstd::arithmetic::div_mod::lemma_hoist_over_denominator(
        (pos * size_in) as int,
        amount as int,
        size_out,
    );
}

/// A count of empty lanes below the width stays below the width when both
/// are rescaled.
pub proof fn lemma_rescaled_bound(empty: nat, w_in: nat, size_in: nat, w_out: nat, size_out: nat)
    requires
        empty < w_in,
        0 < size_in,
        0 < size_out,
        w_in * size_in == w_out * size_out,
    ensures
        rescaled(empty, size_in, size_out) < w_out,
        empty * size_in < w_in * size_in,
{
    assert(empty * size_in < w_in * size_in) by (nonlinear_arith)
        requires
            empty < w_in,
            0 < size_in,
    ;
    vstd::arithmetic::div_mod::lemma_div_by_multiple_is_strongly_ordered(
        (empty * size_in) as int,
        (w_out * size_out) as int,
        w_out as int,
        size_out as int,
    );
    vstd::arithmetic::div_mod::lemma_div_multiples_vanish(w_out as int, size_out as int);
    vstd::arithmetic::mul::lemma_mul_is_commutative(w_out as int, size_out as int);
}

impl<A, B, I, F> SIMDObject for SIMDMap<I, F> where
    I: SIMDIterable,
    F: FnMut(I::Vector) -> A,
    A: Packed<Scalar = B>,
    B: Packable,
 {
    type Scalar = B;

    type Vector = A;

    /// The producer under the map is well-formed; the function is a pure
    /// transform; vectors of both types hold the same number of bytes, so
    /// that padding scales with the scalar size; the empty lanes of the
    /// partial vector rescale without a remainder; and the rescaled length
    /// fits the machine.
    open spec fn wf(&self) -> bool {
        &&& self.iter.wf()
        &&& transform::<I::Vector, A, F>(self.func)
        &&& I::Vector::spec_width() * I::Scalar::spec_size() == A::spec_width() * B::spec_size()
        &&& I::Vector::spec_width() * I::Scalar::spec_size() <= usize::MAX
        &&& self.iter.spec_scalar_len() * I::Scalar::spec_size() <= usize::MAX
        &&& (self.iter.tail() matches Some((_, empty)) ==> (empty * I::Scalar::spec_size())
            % B::spec_size() == 0)
    }
}

impl<A, B, I, F> SIMDSized for SIMDMap<I, F> where
    I: SIMDIterable,
    F: FnMut(I::Vector) -> A,
    A: Packed<Scalar = B>,
    B: Packable,
 {
    /// The length of the producer under the map, rescaled to the scalars
    /// which the map yields.
    open spec fn spec_scalar_len(&self) -> nat {
        rescaled(self.iter.spec_scalar_len(), I::Scalar::spec_size(), B::spec_size())
    }

    fn scalar_len(&self) -> (n: usize) {
        proof {
            B::lemma_size();
        }
        rescale(self.iter.scalar_len(), <I::Scalar as Packable>::size(), B::size())
    }
}

impl<A, B, I, F> SIMDIterable for SIMDMap<I, F> where
    I: SIMDIterable,
    F: FnMut(I::Vector) -> A,
    A: Packed<Scalar = B>,
    B: Packable,
 {
    /// The cursor of the producer under the map, rescaled to the scalars
    /// which the map yields.
    open spec fn spec_scalar_pos(&self) -> nat {
        rescaled(self.iter.spec_scalar_pos(), I::Scalar::spec_size(), B::spec_size())
    }

    /// The cursor of a map moves with the cursor under it: by as many
    /// scalars of the map as make up whole scalars of the producer under
    /// it, and as far as that producer can be advanced.
    open spec fn can_advance(&self, amount: usize) -> bool {
        &&& (amount as nat) * B::spec_size() <= usize::MAX
        &&& ((amount as nat) * B::spec_size()) % I::Scalar::spec_size() == 0
        &&& self.iter.can_advance(
            rescaled(amount as nat, B::spec_size(), I::Scalar::spec_size()) as usize,
        )
    }

    open spec fn spec_len(&self) -> nat {
        self.iter.spec_len()
    }

    open spec fn padding(&self) -> Seq<B> {
        Seq::new(A::spec_width(), |i: int| B::spec_zero())
    }

    open spec fn pending(&self) -> Seq<Seq<B>> {
        self.iter.pending().map_values(
            |lanes: Seq<I::Scalar>| lane_image::<I::Vector, A, F>(self.func, lanes),
        )
    }

    open spec fn tail(&self) -> Option<(Seq<B>, nat)> {
        match self.iter.tail() {
            Some((lanes, empty)) => Some(
                (
                    lane_image::<I::Vector, A, F>(self.func, lanes),
                    rescaled(empty, I::Scalar::spec_size(), B::spec_size()),
                ),
            ),
            None => None,
        }
    }

    /// The producer under the map is attested at the `k`-th vector, and the
    /// function returns on that vector.
    open spec fn attested(&self, k: int) -> bool {
        &&& self.iter.attested(k)
        &&& 0 <= k < self.iter.pending().len() ==> lane_defined::<I::Vector, A, F>(
            self.func,
            self.iter.pending()[k],
        )
        &&& k == self.iter.pending().len() ==> (self.iter.tail() matches Some((lanes, _))
            ==> lane_defined::<I::Vector, A, F>(self.func, lanes))
    }

    proof fn lemma_shape(&self) {
        self.iter.lemma_shape();
        I::Scalar::lemma_size();
        B::lemma_size();
        assert(self.iter.spec_scalar_pos() * I::Scalar::spec_size() <= self.iter.spec_scalar_len()
            * I::Scalar::spec_size()) by (nonlinear_arith)
            requires
                self.iter.spec_scalar_pos() <= self.iter.spec_scalar_len(),
        ;
        vstd::arithmetic::div_mod::lemma_div_is_ordered(
            (self.iter.spec_scalar_pos() * I::Scalar::spec_size()) as int,
            (self.iter.spec_scalar_len() * I::Scalar::spec_size()) as int,
            B::spec_size() as int,
        );
        assert forall|k: int| 0 <= k < self.pending().len() implies (#[trigger] self.pending()[k]).len()
            == A::spec_width() by {
            lemma_lane_image_len::<I::Vector, A, F>(self.func, self.iter.pending()[k]);
        }
        match self.iter.tail() {
            Some((lanes, empty)) => {
                lemma_lane_image_len::<I::Vector, A, F>(self.func, lanes);
                lemma_rescaled_bound(
                    empty,
                    I::Vector::spec_width(),
                    I::Scalar::spec_size(),
                    A::spec_width(),
                    B::spec_size(),
                );
            },
            None => {},
        }
    }

    fn scalar_pos(&self) -> (n: usize) {
        proof {
            self.iter.lemma_shape();
            B::lemma_size();
            assert(self.iter.spec_scalar_pos() * I::Scalar::spec_size()
                <= self.iter.spec_scalar_len() * I::Scalar::spec_size()) by (nonlinear_arith)
                requires
                    self.iter.spec_scalar_pos() <= self.iter.spec_scalar_len(),
            ;
        }
        rescale(self.iter.scalar_pos(), <I::Scalar as Packable>::size(), B::size())
    }

    fn advance(&mut self, amount: usize)
        ensures
            final(self).func == old(self).func,
    {
        proof {
            I::Scalar::lemma_size();
            B::lemma_size();
        }
        let under = rescale(amount, B::size(), <I::Scalar as Packable>::size());
        self.iter.advance(under);
        proof {
            vstd::arithmetic::div_mod::lemma_fundamental_div_mod(
                (amount * B::spec_size()) as int,
                I::Scalar::spec_size() as int,
            );
            vstd::arithmetic::mul::lemma_mul_is_commutative(
                under as int,
                I::Scalar::spec_size() as int,
            );
            lemma_rescaled_sum(
                old(self).iter.spec_scalar_pos(),
                under as nat,
                amount as nat,
                I::Scalar::spec_size(),
                B::spec_size(),
            );
        }
    }

    fn finalize(&mut self)
        ensures
            final(self).func == old(self).func,
    {
        self.iter.finalize();
    }

    fn default(&self) -> (v: A) {
        <A as Packed>::default()
    }

    fn next(&mut self) -> (r: Option<A>)
        ensures
            final(self).func == old(self).func,
    {
        let ghost ahead = self.iter.pending();
        match self.iter.next() {
            Some(v) => {
                let r = (self.func)(v);
                proof {
                    assert(self.pending() =~= old(self).pending().drop_first());
                    assert(call_ensures(self.func, (v,), r));
                    I::Scalar::lemma_size();
                    B::lemma_size();
                    lemma_rescaled_sum(
                        old(self).iter.spec_scalar_pos(),
                        I::Vector::spec_width(),
                        A::spec_width(),
                        I::Scalar::spec_size(),
                        B::spec_size(),
                    );
                    assert forall|k: int| 0 <= k implies #[trigger] self.attested(k) == old(
                        self,
                    ).attested(k + 1) by {
                        assert(self.iter.attested(k) == old(self).iter.attested(k + 1));
                    }
                }
                Some(r)
            },
            None => None,
        }
    }

    fn len(&self) -> (n: usize) {
        self.iter.len()
    }
}

impl<A, B, I, F> SIMDIterator for SIMDMap<I, F> where
    I: SIMDIterator,
    F: FnMut(I::Vector) -> A,
    A: Packed<Scalar = B>,
    B: Packable,
 {
    fn end(&mut self) -> (r: Option<(A, usize)>)
        ensures
            final(self).func == old(self).func,
    {
        proof {
            self.iter.lemma_shape();
            I::Scalar::lemma_size();
            B::lemma_size();
        }
        match self.iter.end() {
            Some((v, n)) => {
                proof {
                    lemma_rescaled_bound(
                        n as nat,
                        I::Vector::spec_width(),
                        I::Scalar::spec_size(),
                        A::spec_width(),
                        B::spec_size(),
                    );
                }
                let nr = rescale(n, <I::Scalar as Packable>::size(), B::size());
                let r = (self.func)(v);
                proof {
                    assert(call_ensures(self.func, (v,), r));
                }
                Some((r, nr))
            },
            None => None,
        }
    }
}

} // verus!
