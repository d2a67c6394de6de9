//! Views of a producer: its vectors in batches, and its scalars one by one.

use crate::iters::{SIMDArray, SIMDIterable, SIMDObject, SIMDSized};
use crate::simd_iter::SIMDIter;
use crate::vecs::Packed;
use vstd::prelude::*;

verus! {

/// A view which yields the scalars of a producer one at a time.
pub struct Unpacked<T> where T: SIMDIterable {
    pub iter: T,
}

impl<T> Unpacked<T> where T: SIMDIterable {
    /// Give the producer back, with its cursor where the view left it.
    pub fn pack(self) -> (r: T)
        ensures
            r == self.iter,
    {
        self.iter
    }
}

impl<A: SIMDArray> Unpacked<SIMDIter<A>> {
    /// Return the scalar under the cursor and step over it, or return
    /// `None` and change nothing if the cursor stands at the end.
    pub fn next(&mut self) -> (r: Option<A::Scalar>)
        requires
            old(self).iter.wf(),
        ensures
            final(self).iter.wf(),
            final(self).iter.data == old(self).iter.data,
            final(self).iter.default == old(self).iter.default,
            match r {
                Some(s) => {
                    &&& old(self).iter.position < old(self).iter.data.spec_scalar_len()
                    &&& s == old(self).iter.data.scalars()[old(self).iter.position as int]
                    &&& final(self).iter.position == old(self).iter.position + 1
                },
                None => {
                    &&& old(self).iter.position == old(self).iter.data.spec_scalar_len()
                    &&& final(self).iter.position == old(self).iter.position
                },
            },
    {
        if self.iter.scalar_pos() < self.iter.scalar_len() {
            let ret = self.iter.load_scalar_unchecked(self.iter.scalar_pos());
            self.iter.advance(1);
            Some(ret)
        } else {
            None
        }
    }
}

/// A view which yields several vectors of a producer at a time.
pub struct Unrolled<'a, T: SIMDIterable> {
    pub iter: &'a mut T,
    pub amt: usize,
    pub scratch: [T::Vector; 8],
}

/// The number of vectors in the next batch: the batch size, or what is left
/// where that is less.
pub open spec fn batch_len(vectors: nat, amt: nat) -> nat {
    if vectors < amt {
        vectors
    } else {
        amt
    }
}

/// The lengths of the batches into which `vectors` whole vectors fall when
/// they are taken `amt` at a time, first batch first.
pub open spec fn batches(vectors: nat, amt: nat) -> Seq<nat>
    decreases vectors,
{
    if vectors == 0 || amt == 0 {
        Seq::empty()
    } else {
        seq![batch_len(vectors, amt)] + batches((vectors - batch_len(vectors, amt)) as nat, amt)
    }
}

impl<'a, T> Unrolled<'a, T> where T: SIMDIterable {
    /// The producer behind this view, as it now stands.
    pub open spec fn producer(&self) -> T {
        *self.iter
    }

    /// Whether the view is in a state which its operations accept.
    pub open spec fn wf(&self) -> bool {
        &&& self.producer().wf()
        &&& self.amt <= 8
    }

    /// Return the batch size.
    pub fn chunk_len(&self) -> (n: usize)
        ensures
            n == self.amt,
    {
        self.amt
    }

    /// Return the current position of the producer, measured in batches.
    pub fn chunk_pos(&self) -> (n: usize)
        requires
            self.wf(),
            self.amt > 0,
        ensures
            n == (self.producer().spec_scalar_pos() / <T::Vector as Packed>::spec_width()) / (
            self.amt as nat),
    {
        self.iter.vector_pos() / self.chunk_len()
    }

    /// Pull up to `chunk_len()` whole vectors from the producer and return
    /// them as one batch, in order; a batch shorter than that is the last
    /// one, and `None` says that no whole vector was left.
    pub fn next(&mut self) -> (r: Option<&[T::Vector]>)
        requires
            old(self).wf(),
        ensures
            final(self).wf(),
            final(self).amt == old(self).amt,
            final(self).producer().tail() == old(self).producer().tail(),
            final(self).producer().spec_scalar_len() == old(self).producer().spec_scalar_len(),
            final(self).producer().pending() == old(self).producer().pending().skip(
                batch_len(old(self).producer().pending().len(), old(self).amt as nat) as int,
            ),
            forall|k: int|
                0 <= k < batch_len(old(self).producer().pending().len(), old(self).amt as nat)
                    ==> old(self).producer().attested(k),
            forall|k: int|
                0 <= k ==> #[trigger] final(self).producer().attested(k) == old(
                    self,
                ).producer().attested(
                    k + batch_len(old(self).producer().pending().len(), old(self).amt as nat),
                ),
            match r {
                Some(batch) => {
                    &&& batch@.len() == batch_len(
                        old(self).producer().pending().len(),
                        old(self).amt as nat,
                    )
                    &&& batch@.len() > 0
                    &&& forall|j: int|
                        0 <= j < batch@.len() ==> (#[trigger] batch@[j]).lanes() == old(
                            self,
                        ).producer().pending()[j]
                },
                None => batch_len(old(self).producer().pending().len(), old(self).amt as nat) == 0,
            },
    {
        let mut i: usize = 0;
        let ghost whole = self.iter.pending();
        proof {
            assert(self.iter.pending() =~= whole.skip(0));
        }
        while i < self.amt
            invariant
                self.wf(),
                self.amt == old(self).amt,
                i <= self.amt,
                i <= whole.len(),
                whole == old(self).producer().pending(),
                self.iter.tail() == old(self).producer().tail(),
                self.iter.spec_scalar_len() == old(self).producer().spec_scalar_len(),
                self.iter.pending() == whole.skip(i as int),
                forall|j: int| 0 <= j < i ==> (#[trigger] self.scratch@[j]).lanes() == whole[j],
                forall|k: int| 0 <= k < i ==> old(self).producer().attested(k),
                forall|k: int|
                    0 <= k ==> #[trigger] self.iter.attested(k) == old(self).producer().attested(
                        k + i,
                    ),
            ensures
                i == batch_len(whole.len(), self.amt as nat),
            decreases self.amt - i,
        {
            if let Some(vec) = self.iter.next() {
                self.scratch[i] = vec;
                proof {
                    assert(whole.skip(i as int).drop_first() =~= whole.skip(i + 1));
                }
                i += 1;
            } else {
                break ;
            }
        }
        if i > 0 {
            let all = vstd::array::array_as_slice(&self.scratch);
            Some(vstd::slice::slice_subrange(all, 0, i))
        } else {
            None
        }
    }
}

/// Taking `vectors` whole vectors `amt` at a time makes as many batches as
/// `vectors / amt` rounded up, and the last batch holds `vectors % amt`
/// vectors, or `amt` where that is zero.
pub proof fn lemma_batches(vectors: nat, amt: nat)
    requires
        0 < amt,
    ensures
        batches(vectors, amt).len() == (vectors + amt - 1) / (amt as int),
        forall|k: int| 0 <= k < batches(vectors, amt).len() - 1 ==> batches(vectors, amt)[k] == amt,
        0 < vectors ==> batches(vectors, amt).last() == if vectors % amt == 0 {
            amt
        } else {
            vectors % amt
        },
    decreases vectors,
{
    if vectors == 0 {
        vstd::arithmetic::div_mod::lemma_basic_div(amt - 1, amt as int);
    } else if vectors <= amt {
        assert(batches(0, amt) =~= Seq::<nat>::empty());
        assert(batches(vectors, amt) =~= seq![vectors]);
        if vectors == amt {
            vstd::arithmetic::div_mod::lemma_mod_self_0(amt as int);
            vstd::arithmetic::div_mod::lemma_fundamental_div_mod_converse(
                vectors + amt - 1,
                amt as int,
                1,
                amt - 1,
            );
        } else {
            vstd::arithmetic::div_mod::lemma_small_mod(vectors, amt);
            vstd::arithmetic::div_mod::lemma_fundamental_div_mod_converse(
                vectors + amt - 1,
                amt as int,
                1,
                vectors - 1,
            );
        }
    } else {
        let rest = (vectors - amt) as nat;
        lemma_batches(rest, amt);
        let tail = batches(rest, amt);
        assert(batches(vectors, amt) =~= seq![amt] + tail);
        vstd::arithmetic::div_mod::lemma_div_plus_one(rest + amt - 1, amt as int);
        vstd::arithmetic::div_mod::lemma_mod_add_multiples_vanish(rest as int, amt as int);
        assert(tail.len() > 0) by {
            vstd::arithmetic::div_mod::lemma_div_pos_is_pos(rest + amt - 1, amt as int);
            if tail.len() == 0 {
                vstd::arithmetic::div_mod::lemma_fundamental_div_mod(rest + amt - 1, amt as int);
                vstd::arithmetic::div_mod::lemma_mod_pos_bound(rest + amt - 1, amt as int);
            }
        }
        assert(batches(vectors, amt).last() == tail.last());
    }
}

} // verus!
