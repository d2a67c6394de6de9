//! What holds of every traversal: how many vectors a buffer yields, that the
//! exact export gives the buffer back, how a change of width rescales the
//! padding, and that an identity mutator changes nothing.

use crate::iters::{SIMDArray, SIMDIterable, SIMDObject, SIMDSized};
use crate::model::{
    accumulates, collected, collected_all, folds_to, follows, lane_defined, lane_image,
    lemma_collected_len, lemma_full_count, lemma_full_count_step, lemma_full_count_unique,
    lemma_lane_image, lemma_windows_step, rewritten, tail_start, transform, windows,
};
use crate::simd_iter::SIMDIter;
use crate::simd_map::{rescaled, SIMDMap};
use crate::vecs::{Packable, Packed};
use vstd::prelude::*;

verus! {

/// The whole vectors from `pos` on, flattened, are the scalars from `pos`
/// up to where the partial vector starts.
pub proof fn lemma_windows_flatten<S>(s: Seq<S>, pos: nat, w: nat)
    requires
        pos <= s.len(),
        0 < w,
    ensures
        windows(s, pos, w).flatten() == s.subrange(
            pos as int,
            tail_start(s.len(), pos, w) as int,
        ),
    decreases s.len() - pos,
{
    lemma_full_count(s.len(), pos, w);
    if pos + w <= s.len() {
        lemma_windows_step(s, pos, w, Seq::empty());
        lemma_full_count_step(s.len(), pos, w);
        lemma_full_count(s.len(), pos + w, w);
        lemma_windows_flatten(s, pos + w, w);
        let all = windows(s, pos, w);
        assert(all.flatten() == all.first() + all.drop_first().flatten());
        assert(all.flatten() =~= s.subrange(pos as int, tail_start(s.len(), pos, w) as int));
    } else {
        lemma_full_count_unique(s.len(), pos, w, 0);
        assert(windows(s, pos, w).flatten() =~= s.subrange(pos as int, pos as int));
    }
}

/// A buffer whose length is an exact multiple of the vector width is
/// traversed from its start in `len / width` whole vectors, and has no
/// partial vector: `next` returns a vector that many times and `end`
/// returns nothing.
pub proof fn lemma_exact_multiple<A: SIMDArray>(it: SIMDIter<A>)
    requires
        it.wf(),
        it.position == 0,
        it.spec_scalar_len() % A::Vector::spec_width() == 0,
    ensures
        it.pending().len() == it.spec_scalar_len() / A::Vector::spec_width(),
        it.tail() is None,
{
    A::Vector::lemma_width();
    it.data.lemma_scalars();
    lemma_full_count(it.spec_scalar_len(), 0, A::Vector::spec_width());
}

/// A buffer whose length is not a multiple of the vector width is
/// traversed from its start in `len / width` whole vectors, rounded down,
/// followed by one partial vector with `width - len % width` empty lanes.
pub proof fn lemma_inexact_multiple<A: SIMDArray>(it: SIMDIter<A>)
    requires
        it.wf(),
        it.position == 0,
        it.spec_scalar_len() % A::Vector::spec_width() != 0,
    ensures
        it.pending().len() == it.spec_scalar_len() / A::Vector::spec_width(),
        it.tail() matches Some((_, empty)) && empty == A::Vector::spec_width()
            - it.spec_scalar_len() % A::Vector::spec_width(),
{
    A::Vector::lemma_width();
    it.data.lemma_scalars();
    lemma_full_count(it.spec_scalar_len(), 0, A::Vector::spec_width());
}

/// Round trip: the exact export of a producer over a buffer is the buffer
/// from the cursor on; for a producer at the start, the whole buffer.
pub proof fn lemma_round_trip<A: SIMDArray>(it: SIMDIter<A>)
    requires
        it.wf(),
    ensures
        collected(it.pending(), it.tail()) == it.scalars().skip(it.position as int),
        it.position == 0 ==> collected(it.pending(), it.tail()) == it.scalars(),
{
    let s = it.data.scalars();
    let w = A::Vector::spec_width();
    let pos = it.position as nat;
    A::Vector::lemma_width();
    it.data.lemma_scalars();
    it.default.lemma_lanes();
    lemma_full_count(s.len(), pos, w);
    lemma_windows_flatten(s, pos, w);
    assert(collected(it.pending(), it.tail()) =~= s.skip(pos as int));
    assert(s.skip(0) =~= s);
}

/// The layout of the untrimmed export of a producer at the start of a
/// buffer: the whole vectors give the buffer back up to the partial
/// vector; the partial vector follows in full, first its padding, which
/// holds the lanes of the default vector, then the scalars which are left.
pub proof fn lemma_collect_all_layout<A: SIMDArray>(it: SIMDIter<A>)
    requires
        it.wf(),
        it.position == 0,
    ensures
        ({
            let all = collected_all(it.pending(), it.tail());
            let whole = it.pending().len() * A::Vector::spec_width();
            &&& all.subrange(0, whole as int) == it.scalars().subrange(0, whole as int)
            &&& match it.tail() {
                Some((_, empty)) => {
                    &&& all.len() == whole + A::Vector::spec_width()
                    &&& all.subrange(whole as int, (whole + empty) as int) == it.padding().subrange(
                        0,
                        empty as int,
                    )
                    &&& all.skip((whole + empty) as int) == it.scalars().skip(whole as int)
                },
                None => all == it.scalars(),
            }
        }),
{
    let s = it.data.scalars();
    let w = A::Vector::spec_width();
    A::Vector::lemma_width();
    it.data.lemma_scalars();
    it.default.lemma_lanes();
    it.lemma_shape();
    lemma_full_count(s.len(), 0, w);
    lemma_windows_flatten(s, 0, w);
    lemma_collected_len(it.pending(), it.tail(), w);
    let all = collected_all(it.pending(), it.tail());
    let whole = it.pending().len() * w;
    match it.tail() {
        Some((lanes, empty)) => {
            seq![lanes].lemma_flatten_singleton();
            assert(all.subrange(0, whole as int) =~= s.subrange(0, whole as int));
            assert(all.subrange(whole as int, (whole + empty) as int) =~= it.padding().subrange(
                0,
                empty as int,
            ));
            assert(all.skip((whole + empty) as int) =~= s.skip(whole as int));
        },
        None => {
            assert(Seq::<Seq<A::Scalar>>::empty().flatten() =~= Seq::<A::Scalar>::empty());
            assert(all =~= s);
            assert(all.subrange(0, whole as int) =~= s.subrange(0, whole as int));
        },
    }
}

/// The untrimmed export of a producer at the start of a buffer, truncated
/// to the length of the buffer, is the buffer, wherever the leading lanes
/// of the partial vector agree with the scalars which it holds; so always
/// when the length is a multiple of the vector width.
pub proof fn lemma_collect_all_truncated<A: SIMDArray>(it: SIMDIter<A>)
    requires
        it.wf(),
        it.position == 0,
        it.tail() matches Some((lanes, empty)) ==> lanes.subrange(
            0,
            A::Vector::spec_width() - empty,
        ) == lanes.skip(empty as int),
    ensures
        it.spec_scalar_len() <= collected_all(it.pending(), it.tail()).len(),
        collected_all(it.pending(), it.tail()).subrange(0, it.spec_scalar_len() as int)
            == it.scalars(),
{
    let s = it.data.scalars();
    let w = A::Vector::spec_width();
    A::Vector::lemma_width();
    it.data.lemma_scalars();
    it.default.lemma_lanes();
    it.lemma_shape();
    lemma_full_count(s.len(), 0, w);
    lemma_collect_all_layout(it);
    lemma_collected_len(it.pending(), it.tail(), w);
    lemma_round_trip(it);
    let all = collected_all(it.pending(), it.tail());
    match it.tail() {
        Some((lanes, empty)) => {
            seq![lanes].lemma_flatten_singleton();
            assert(all.subrange(0, s.len() as int) =~= it.pending().flatten() + lanes.subrange(
                0,
                w - empty,
            ));
        },
        None => {
            assert(all.subrange(0, s.len() as int) =~= all);
        },
    }
}

/// A map to `k` times as many lanes, each a `k`-th of the size, has `k`
/// times the empty lanes in its partial vector and exports `k` times as
/// many scalars as the producer under it.
pub proof fn lemma_map_widens<A, B, I, F>(m: SIMDMap<I, F>, k: nat) where
    I: SIMDIterable,
    F: FnMut(I::Vector) -> A,
    A: Packed<Scalar = B>,
    B: Packable,

    requires
        m.wf(),
        A::spec_width() == k * I::Vector::spec_width(),
    ensures
        I::Scalar::spec_size() == k * B::spec_size(),
        m.tail() is Some <==> m.iter.tail() is Some,
        m.tail() matches Some((_, empty)) ==> (m.iter.tail() matches Some((_, under)) && empty == k
            * under),
        collected(m.pending(), m.tail()).len() == k * collected(
            m.iter.pending(),
            m.iter.tail(),
        ).len(),
{
    let w_in = I::Vector::spec_width();
    let w_out = A::spec_width();
    let s_in = I::Scalar::spec_size();
    let s_out = B::spec_size();
    I::Vector::lemma_width();
    A::lemma_width();
    I::Scalar::lemma_size();
    B::lemma_size();
    m.lemma_shape();
    m.iter.lemma_shape();
    lemma_collected_len(m.pending(), m.tail(), w_out);
    lemma_collected_len(m.iter.pending(), m.iter.tail(), w_in);
    assert(s_in == k * s_out) by (nonlinear_arith)
        requires
            w_in * s_in == w_out * s_out,
            w_out == k * w_in,
            0 < w_in,
    ;
    let c = m.iter.pending().len();
    assert(m.pending().len() == c);
    assert(c * w_out == k * (c * w_in)) by (nonlinear_arith)
        requires
            w_out == k * w_in,
    ;
    match m.iter.tail() {
        Some((_, empty)) => {
            assert(empty * s_in == (k * empty) * s_out) by (nonlinear_arith)
                requires
                    s_in == k * s_out,
            ;
            vstd::arithmetic::div_mod::lemma_div_multiples_vanish((k * empty) as int, s_out as int);
            vstd::arithmetic::mul::lemma_mul_is_commutative((k * empty) as int, s_out as int);
            assert(rescaled(empty, s_in, s_out) == k * empty);
            assert(w_out - k * empty == k * (w_in - empty)) by (nonlinear_arith)
                requires
                    w_out == k * w_in,
            ;
            assert(c * w_out + (w_out - k * empty) == k * (c * w_in + (w_in - empty)))
                by (nonlinear_arith)
                requires
                    c * w_out == k * (c * w_in),
                    w_out - k * empty == k * (w_in - empty),
            ;
        },
        None => {},
    }
}

/// A map to a `k`-th of the lanes, each `k` times the size, has a `k`-th of
/// the empty lanes in its partial vector and exports a `k`-th of the
/// scalars of the producer under it, both without a remainder.
pub proof fn lemma_map_narrows<A, B, I, F>(m: SIMDMap<I, F>, k: nat) where
    I: SIMDIterable,
    F: FnMut(I::Vector) -> A,
    A: Packed<Scalar = B>,
    B: Packable,

    requires
        m.wf(),
        I::Vector::spec_width() == k * A::spec_width(),
    ensures
        B::spec_size() == k * I::Scalar::spec_size(),
        m.tail() is Some <==> m.iter.tail() is Some,
        m.tail() matches Some((_, empty)) ==> (m.iter.tail() matches Some((_, under)) && k * empty
            == under),
        k * collected(m.pending(), m.tail()).len() == collected(
            m.iter.pending(),
            m.iter.tail(),
        ).len(),
{
    let w_in = I::Vector::spec_width();
    let w_out = A::spec_width();
    let s_in = I::Scalar::spec_size();
    let s_out = B::spec_size();
    I::Vector::lemma_width();
    A::lemma_width();
    I::Scalar::lemma_size();
    B::lemma_size();
    m.lemma_shape();
    m.iter.lemma_shape();
    lemma_collected_len(m.pending(), m.tail(), w_out);
    lemma_collected_len(m.iter.pending(), m.iter.tail(), w_in);
    assert(s_out == k * s_in) by (nonlinear_arith)
        requires
            w_in * s_in == w_out * s_out,
            w_in == k * w_out,
            0 < w_out,
    ;
    let c = m.iter.pending().len();
    assert(m.pending().len() == c);
    assert(k * (c * w_out) == c * w_in) by (nonlinear_arith)
        requires
            w_in == k * w_out,
    ;
    match m.iter.tail() {
        Some((_, empty)) => {
            let x = (empty * s_in) as int;
            let q = rescaled(empty, s_in, s_out);
            vstd::arithmetic::div_mod::lemma_fundamental_div_mod(x, s_out as int);
            assert(x == s_out * q);
            assert(empty == k * q) by (nonlinear_arith)
                requires
                    empty * s_in == s_out * q,
                    s_out == k * s_in,
                    0 < s_in,
            ;
            assert(k * (c * w_out + (w_out - q)) == c * w_in + (w_in - empty)) by (nonlinear_arith)
                requires
                    k * (c * w_out) == c * w_in,
                    w_in == k * w_out,
                    empty == k * q,
            ;
        },
        None => {
            assert(k * (c * w_out + 0) == c * w_in + 0) by (nonlinear_arith)
                requires
                    k * (c * w_out) == c * w_in,
            ;
        },
    }
}

/// In-place mutation with a mutator which leaves every vector as it found
/// it leaves the buffer as it was, scalar for scalar.
pub proof fn lemma_identity_rewrite<S>(
    s: Seq<S>,
    pos: nat,
    w: nat,
    pad: Seq<S>,
    g: spec_fn(Seq<S>) -> Seq<S>,
)
    requires
        pos <= s.len(),
        0 < w,
        pad.len() == w,
        forall|lanes: Seq<S>| #[trigger] g(lanes) == lanes,
    ensures
        rewritten(s, pos, w, pad, g) == s,
{
    lemma_full_count(s.len(), pos, w);
    lemma_windows_flatten(s, pos, w);
    assert(windows(s, pos, w).map_values(g) =~= windows(s, pos, w));
    assert(rewritten(s, pos, w, pad, g) =~= s);
}

/// A map over a buffer, from its start, to `k` times as many lanes exports
/// `k` times as many scalars as the buffer holds.
pub proof fn lemma_map_widens_buffer<A, B, D, F>(m: SIMDMap<SIMDIter<D>, F>, k: nat) where
    D: SIMDArray,
    F: FnMut(D::Vector) -> A,
    A: Packed<Scalar = B>,
    B: Packable,

    requires
        m.wf(),
        m.iter.position == 0,
        A::spec_width() == k * D::Vector::spec_width(),
    ensures
        collected(m.pending(), m.tail()).len() == k * m.iter.spec_scalar_len(),
        m.spec_scalar_len() == k * m.iter.spec_scalar_len(),
{
    lemma_map_widens(m, k);
    lemma_round_trip(m.iter);
    m.iter.data.lemma_scalars();
    B::lemma_size();
    let len = m.iter.spec_scalar_len();
    let s_out = B::spec_size();
    assert(len * (k * s_out) == (k * len) * s_out) by (nonlinear_arith);
    vstd::arithmetic::div_mod::lemma_div_multiples_vanish((k * len) as int, s_out as int);
    vstd::arithmetic::mul::lemma_mul_is_commutative((k * len) as int, s_out as int);
}

/// A map over a buffer, from its start, to a `k`-th of the lanes exports a
/// `k`-th of the scalars which the buffer holds, without a remainder.
pub proof fn lemma_map_narrows_buffer<A, B, D, F>(m: SIMDMap<SIMDIter<D>, F>, k: nat) where
    D: SIMDArray,
    F: FnMut(D::Vector) -> A,
    A: Packed<Scalar = B>,
    B: Packable,

    requires
        m.wf(),
        m.iter.position == 0,
        D::Vector::spec_width() == k * A::spec_width(),
    ensures
        k * collected(m.pending(), m.tail()).len() == m.iter.spec_scalar_len(),
        k * m.spec_scalar_len() == m.iter.spec_scalar_len(),
{
    lemma_map_narrows(m, k);
    lemma_round_trip(m.iter);
    m.iter.data.lemma_scalars();
    D::Scalar::lemma_size();
    let len = m.iter.spec_scalar_len();
    let out = collected(m.pending(), m.tail()).len();
    let s_in = D::Scalar::spec_size();
    D::Vector::lemma_width();
    assert(0 < k * s_in) by (nonlinear_arith)
        requires
            0 < s_in,
            0 < k * A::spec_width(),
    ;
    assert(len * s_in == out * (k * s_in)) by (nonlinear_arith)
        requires
            k * out == len,
    ;
    vstd::arithmetic::div_mod::lemma_div_multiples_vanish(out as int, (k * s_in) as int);
    vstd::arithmetic::mul::lemma_mul_is_commutative(out as int, (k * s_in) as int);
}

/// A function which returns what `h` says is a pure transform as soon as
/// it can be called on every vector.
pub proof fn lemma_transform<V: Packed, A: Packed, F: FnMut(V) -> A>(
    f: F,
    h: spec_fn(Seq<V::Scalar>) -> Seq<A::Scalar>,
)
    requires
        forall|v: V| call_requires(f, (v,)),
        follows::<V, A, F>(f, h),
    ensures
        transform::<V, A, F>(f),
{
    assert forall|v: V, r: A| #[trigger] call_ensures(f, (v,), r) implies r.lanes() == lane_image::<
        V,
        A,
        F,
    >(f, v.lanes()) by {
        assert(lane_defined::<V, A, F>(f, v.lanes()));
    }
}

/// Where the function of a map returns what `h` says, a pending vector of
/// the map which is attested is what `h` makes of the vector under it.
pub proof fn lemma_map_pending<A, B, I, F>(
    m: SIMDMap<I, F>,
    h: spec_fn(Seq<I::Scalar>) -> Seq<B>,
    k: int,
) where I: SIMDIterable, F: FnMut(I::Vector) -> A, A: Packed<Scalar = B>, B: Packable
    requires
        follows::<I::Vector, A, F>(m.func, h),
        0 <= k < m.pending().len(),
        m.attested(k),
    ensures
        m.pending()[k] == h(m.iter.pending()[k]),
{
    lemma_lane_image::<I::Vector, A, F>(m.func, h, m.iter.pending()[k]);
}

/// Where the function of a map returns what `h` says, the partial vector of
/// the map, if attested, is what `h` makes of the partial vector under it,
/// with the empty lanes rescaled.
pub proof fn lemma_map_tail<A, B, I, F>(m: SIMDMap<I, F>, h: spec_fn(Seq<I::Scalar>) -> Seq<B>) where
    I: SIMDIterable,
    F: FnMut(I::Vector) -> A,
    A: Packed<Scalar = B>,
    B: Packable,

    requires
        follows::<I::Vector, A, F>(m.func, h),
        m.attested(m.pending().len() as int),
    ensures
        m.tail() == match m.iter.tail() {
            Some((lanes, empty)) => Some(
                (h(lanes), rescaled(empty, I::Scalar::spec_size(), B::spec_size())),
            ),
            None => None,
        },
{
    match m.iter.tail() {
        Some((lanes, _)) => {
            lemma_lane_image::<I::Vector, A, F>(m.func, h, lanes);
        },
        None => {},
    }
}

/// Where `f` returns what `h` says, what it folds the vectors to is the
/// left fold of `h` over them.
pub proof fn lemma_folds_to<V: Packed, A, F: FnMut(A, V) -> A>(
    f: F,
    h: spec_fn(A, Seq<V::Scalar>) -> A,
    vs: Seq<Seq<V::Scalar>>,
    start: A,
    end: A,
)
    requires
        folds_to::<V, A, F>(f, vs, start, end),
        accumulates::<V, A, F>(f, h),
    ensures
        end == vs.fold_left(start, h),
    decreases vs.len(),
{
    if vs.len() > 0 {
        let (mid, v) = choose|mid: A, v: V|
            folds_to::<V, A, F>(f, vs.drop_last(), start, mid) && v.lanes() == vs.last()
                && #[trigger] call_ensures(f, (mid, v), end);
        lemma_folds_to::<V, A, F>(f, h, vs.drop_last(), start, mid);
    }
}

} // verus!
