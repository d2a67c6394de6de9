//! The mathematical model of a traversal: which whole vectors a run of
//! scalars forms, what its partial last vector looks like, and what the
//! terminal operations make of them.

use crate::vecs::{Packable, Packed};
use vstd::prelude::*;

verus! {

/// Number of whole vectors of `w` lanes in the scalars from `pos` up to `len`.
pub open spec fn full_count(len: nat, pos: nat, w: nat) -> nat {
    if pos <= len && 0 < w {
        ((len - pos) / (w as int)) as nat
    } else {
        0
    }
}

/// The whole vectors which the scalars of `s` from `pos` on form, in order.
pub open spec fn windows<S>(s: Seq<S>, pos: nat, w: nat) -> Seq<Seq<S>> {
    Seq::new(full_count(s.len(), pos, w), |k: int| s.subrange(pos + k * w, pos + k * w + w))
}

/// Index of the first scalar which no whole vector from `pos` on holds.
pub open spec fn tail_start(len: nat, pos: nat, w: nat) -> nat {
    pos + full_count(len, pos, w) * w
}

/// The partial vector after the whole vectors from `pos` on, if scalars are
/// left for one: its lanes and the number of its empty lanes. The empty
/// lanes come first and hold the matching lanes of `pad`; the scalars
/// that are left follow, right-aligned.
pub open spec fn partial<S>(s: Seq<S>, pos: nat, w: nat, pad: Seq<S>) -> Option<(Seq<S>, nat)> {
    let start = tail_start(s.len(), pos, w);
    if start < s.len() && 0 < w {
        let empty = (w - (s.len() - start)) as nat;
        Some((pad.subrange(0, empty as int) + s.subrange(start as int, s.len() as int), empty))
    } else {
        None
    }
}

/// The lanes of a partial vector as a sequence of at most one vector.
pub open spec fn tail_lanes<S>(tail: Option<(Seq<S>, nat)>) -> Seq<Seq<S>> {
    match tail {
        Some((lanes, _)) => seq![lanes],
        None => Seq::empty(),
    }
}

/// The scalars of a partial vector which are not padding.
pub open spec fn tail_valid<S>(tail: Option<(Seq<S>, nat)>) -> Seq<S> {
    match tail {
        Some((lanes, empty)) => lanes.skip(empty as int),
        None => Seq::empty(),
    }
}

/// What the exact scalar export yields: the lanes of every whole vector in
/// order, then the scalars of the partial vector without its padding.
pub open spec fn collected<S>(pending: Seq<Seq<S>>, tail: Option<(Seq<S>, nat)>) -> Seq<S> {
    pending.flatten() + tail_valid(tail)
}

/// What the untrimmed scalar export yields: the lanes of every whole vector
/// in order, then every lane of the partial vector, padding included.
pub open spec fn collected_all<S>(pending: Seq<Seq<S>>, tail: Option<(Seq<S>, nat)>) -> Seq<S> {
    pending.flatten() + tail_lanes(tail).flatten()
}

/// The whole vectors from `pos` on end at or before `len`, and fewer than
/// `w` scalars follow them.
pub proof fn lemma_full_count(len: nat, pos: nat, w: nat)
    requires
        pos <= len,
        0 < w,
    ensures
        pos + full_count(len, pos, w) * w <= len < pos + full_count(len, pos, w) * w + w,
        tail_start(len, pos, w) <= len,
        len - tail_start(len, pos, w) == (len - pos) % (w as int),
{
    let x = len - pos;
    vstd::arithmetic::div_mod::lemma_fundamental_div_mod(x, w as int);
    vstd::arithmetic::div_mod::lemma_mod_pos_bound(x, w as int);
    vstd::arithmetic::div_mod::lemma_div_pos_is_pos(x, w as int);
    vstd::arithmetic::mul::lemma_mul_is_commutative(w as int, x / (w as int));
}

/// A whole vector fits from `pos` exactly when the count is positive.
pub proof fn lemma_full_count_positive(len: nat, pos: nat, w: nat)
    requires
        pos <= len,
        0 < w,
    ensures
        full_count(len, pos, w) > 0 <==> pos + w <= len,
{
    lemma_full_count(len, pos, w);
    let c = full_count(len, pos, w);
    if c > 0 {
        assert(c * w >= w) by (nonlinear_arith)
            requires
                c >= 1,
                w > 0,
        ;
    } else {
        assert(c * w == 0) by (nonlinear_arith)
            requires
                c == 0,
        ;
    }
}

/// Stepping over one whole vector leaves one vector fewer and the same
/// partial vector.
pub proof fn lemma_full_count_step(len: nat, pos: nat, w: nat)
    requires
        pos + w <= len,
        0 < w,
    ensures
        full_count(len, pos, w) == full_count(len, pos + w, w) + 1,
        tail_start(len, pos, w) == tail_start(len, pos + w, w),
{
    let x = len - pos - w;
    vstd::arithmetic::div_mod::lemma_div_plus_one(x, w as int);
    vstd::arithmetic::div_mod::lemma_div_pos_is_pos(x, w as int);
    let c = full_count(len, pos + w, w);
    assert((c + 1) * w == c * w + w) by (nonlinear_arith);
}

/// Stepping over one whole vector drops the first window and keeps the
/// partial vector.
pub proof fn lemma_windows_step<S>(s: Seq<S>, pos: nat, w: nat, pad: Seq<S>)
    requires
        pos + w <= s.len(),
        0 < w,
    ensures
        windows(s, pos, w).len() > 0,
        windows(s, pos, w)[0] == s.subrange(pos as int, (pos + w) as int),
        windows(s, pos + w, w) == windows(s, pos, w).drop_first(),
        partial(s, pos + w, w, pad) == partial(s, pos, w, pad),
{
    lemma_full_count_step(s.len(), pos, w);
    let a = windows(s, pos + w, w);
    let b = windows(s, pos, w).drop_first();
    assert(a.len() == b.len());
    assert forall|k: int| 0 <= k < a.len() implies a[k] == b[k] by {
        assert((k + 1) * w == k * w + w) by (nonlinear_arith);
    }
    assert(a =~= b);
    assert(0 * w == 0) by (nonlinear_arith);
}

/// Every window has `w` scalars.
pub proof fn lemma_windows_shape<S>(s: Seq<S>, pos: nat, w: nat)
    requires
        pos <= s.len(),
        0 < w,
    ensures
        forall|k: int| 0 <= k < windows(s, pos, w).len() ==> (#[trigger] windows(s, pos, w)[k]).len() == w,
{
    lemma_full_count(s.len(), pos, w);
    let c = full_count(s.len(), pos, w);
    assert forall|k: int| 0 <= k < windows(s, pos, w).len() implies (#[trigger] windows(
        s,
        pos,
        w,
    )[k]).len() == w by {
        assert(k * w + w <= c * w) by (nonlinear_arith)
            requires
                0 <= k < c,
                w > 0,
        ;
        assert(0 <= k * w) by (nonlinear_arith)
            requires
                0 <= k,
                w > 0,
        ;
    }
}

/// A partial vector has `w` lanes, at least one of them not empty.
pub proof fn lemma_partial_shape<S>(s: Seq<S>, pos: nat, w: nat, pad: Seq<S>)
    requires
        pos <= s.len(),
        0 < w,
        pad.len() == w,
    ensures
        partial(s, pos, w, pad) matches Some((lanes, empty)) ==> lanes.len() == w && empty < w,
        partial(s, pos, w, pad) is Some <==> tail_start(s.len(), pos, w) < s.len(),
{
    lemma_full_count(s.len(), pos, w);
}

/// `f` can be called on every vector.
pub open spec fn consumer<V, F: FnMut(V) -> ()>(f: F) -> bool {
    forall|v: V| call_requires(f, (v,))
}

/// `f` has returned on a vector with the lanes `vs[k]`, for every `k`.
pub open spec fn visited<V: Packed, F: FnMut(V) -> ()>(f: F, vs: Seq<Seq<V::Scalar>>) -> bool {
    forall|k: int|
        0 <= k < vs.len() ==> exists|v: V|
            v.lanes() == #[trigger] vs[k] && #[trigger] call_ensures(f, (v,), ())
}

/// `f` can be called on a reference to every vector.
pub open spec fn mutator<V, F: FnMut(&mut V) -> ()>(f: F) -> bool {
    forall|x: &mut V| call_requires(f, (x,))
}

/// `f` can be called on every accumulator and vector.
pub open spec fn reducer<V, A, F: FnMut(A, V) -> A>(f: F) -> bool {
    forall|acc: A, v: V| call_requires(f, (acc, v))
}

/// `end` is an accumulator which `f` can return when it takes in `start`
/// and then, first to last, vectors with the lanes `vs`, each time with the
/// accumulator which it returned before.
pub open spec fn folds_to<V: Packed, A, F: FnMut(A, V) -> A>(
    f: F,
    vs: Seq<Seq<V::Scalar>>,
    start: A,
    end: A,
) -> bool
    decreases vs.len(),
{
    if vs.len() == 0 {
        end == start
    } else {
        exists|mid: A, v: V|
            folds_to::<V, A, F>(f, vs.drop_last(), start, mid) && v.lanes() == vs.last()
                && #[trigger] call_ensures(f, (mid, v), end)
    }
}

/// Whatever `f` returns is what `h` makes of the accumulator and of the
/// lanes of the vector.
pub open spec fn accumulates<V: Packed, A, F: FnMut(A, V) -> A>(
    f: F,
    h: spec_fn(A, Seq<V::Scalar>) -> A,
) -> bool {
    forall|acc: A, v: V, r: A| #[trigger] call_ensures(f, (acc, v), r) ==> r == h(acc, v.lanes())
}

/// `f` returns on some vector with the lanes `lanes`.
pub open spec fn lane_defined<V: Packed, A: Packed, F: FnMut(V) -> A>(
    f: F,
    lanes: Seq<V::Scalar>,
) -> bool {
    exists|v: V, r: A| v.lanes() == lanes && #[trigger] call_ensures(f, (v,), r)
}

/// Whatever `f` returns has the lanes which `h` makes of the lanes of the
/// vector.
pub open spec fn follows<V: Packed, A: Packed, F: FnMut(V) -> A>(
    f: F,
    h: spec_fn(Seq<V::Scalar>) -> Seq<A::Scalar>,
) -> bool {
    forall|v: V, r: A| #[trigger] call_ensures(f, (v,), r) ==> r.lanes() == h(v.lanes())
}

/// The lanes which a pure transform makes of the vector with the lanes
/// `lanes`.
pub open spec fn lane_image<V: Packed, A: Packed, F: FnMut(V) -> A>(
    f: F,
    lanes: Seq<V::Scalar>,
) -> Seq<A::Scalar> {
    if lane_defined::<V, A, F>(f, lanes) {
        let (v, r) = choose|v: V, r: A| v.lanes() == lanes && #[trigger] call_ensures(f, (v,), r);
        r.lanes()
    } else {
        Seq::new(A::spec_width(), |i: int| A::Scalar::spec_zero())
    }
}

/// `f` is a pure transform: it can be called on every vector, and the
/// lanes of what it returns are fixed by the lanes of the vector.
pub open spec fn transform<V: Packed, A: Packed, F: FnMut(V) -> A>(f: F) -> bool {
    &&& forall|v: V| call_requires(f, (v,))
    &&& forall|v: V, r: A| #[trigger]
        call_ensures(f, (v,), r) ==> r.lanes() == lane_image::<V, A, F>(f, v.lanes())
}

/// Where `f` returns what `h` says and returns at all on the lanes
/// `lanes`, the lanes which it makes of them are those which `h` makes.
pub proof fn lemma_lane_image<V: Packed, A: Packed, F: FnMut(V) -> A>(
    f: F,
    h: spec_fn(Seq<V::Scalar>) -> Seq<A::Scalar>,
    lanes: Seq<V::Scalar>,
)
    requires
        follows::<V, A, F>(f, h),
        lane_defined::<V, A, F>(f, lanes),
    ensures
        lane_image::<V, A, F>(f, lanes) == h(lanes),
{
}

/// The scalars `s` after an in-place traversal from `pos`: the scalars
/// before `pos` as they were, every whole vector replaced by what `g` makes
/// of it, and the scalars of the partial vector replaced by what `g` makes
/// of them.
pub open spec fn rewritten<S>(
    s: Seq<S>,
    pos: nat,
    w: nat,
    pad: Seq<S>,
    g: spec_fn(Seq<S>) -> Seq<S>,
) -> Seq<S> {
    s.subrange(0, pos as int) + windows(s, pos, w).map_values(g).flatten() + tail_valid(
        match partial(s, pos, w, pad) {
            Some((lanes, empty)) => Some((g(lanes), empty)),
            None => None,
        },
    )
}

/// Vectors of `w` lanes each flatten to `w` scalars per vector.
pub proof fn lemma_flatten_len<S>(vs: Seq<Seq<S>>, w: nat)
    requires
        forall|k: int| 0 <= k < vs.len() ==> (#[trigger] vs[k]).len() == w,
    ensures
        vs.flatten().len() == vs.len() * w,
    decreases vs.len(),
{
    if vs.len() == 0 {
        assert(0 * w == 0) by (nonlinear_arith);
    } else {
        let init = vs.drop_last();
        lemma_flatten_len(init, w);
        init.lemma_flatten_push(vs.last());
        assert(init.push(vs.last()) =~= vs);
        assert((vs.len() - 1) * w + w == vs.len() * w) by (nonlinear_arith);
    }
}

/// The length of the exact export: `w` scalars per whole vector, and the
/// lanes of the partial vector which are not empty.
pub proof fn lemma_collected_len<S>(pending: Seq<Seq<S>>, tail: Option<(Seq<S>, nat)>, w: nat)
    requires
        forall|k: int| 0 <= k < pending.len() ==> (#[trigger] pending[k]).len() == w,
        tail matches Some((lanes, empty)) ==> lanes.len() == w && empty < w,
    ensures
        collected(pending, tail).len() == pending.len() * w + match tail {
            Some((_, empty)) => w - empty,
            None => 0,
        },
        collected_all(pending, tail).len() == pending.len() * w + match tail {
            Some(_) => w as int,
            None => 0,
        },
{
    lemma_flatten_len(pending, w);
    match tail {
        Some((lanes, _)) => {
            seq![lanes].lemma_flatten_singleton();
        },
        None => {
            assert(Seq::<Seq<S>>::empty().flatten() =~= Seq::<S>::empty());
        },
    }
}

/// The number of whole vectors is the only `k` for which `k` vectors fit
/// from `pos` and one more does not.
pub proof fn lemma_full_count_unique(len: nat, pos: nat, w: nat, k: nat)
    requires
        0 < w,
        pos + k * w <= len < pos + k * w + w,
    ensures
        k == full_count(len, pos, w),
        tail_start(len, pos, w) == pos + k * w,
{
    assert(0 <= k * w) by (nonlinear_arith)
        requires
            0 < w,
    ;
    let r = len - pos - k * w;
    vstd::arithmetic::mul::lemma_mul_is_commutative(k as int, w as int);
    vstd::arithmetic::div_mod::lemma_fundamental_div_mod_converse(
        len - pos,
        w as int,
        k as int,
        r,
    );
}

/// Which whole vectors and which partial vector follow `pos` depends only
/// on the scalars from `pos` on.
pub proof fn lemma_windows_suffix<S>(a: Seq<S>, b: Seq<S>, pos: nat, w: nat, pad: Seq<S>)
    requires
        0 < w,
        pos <= a.len() == b.len(),
        a.skip(pos as int) == b.skip(pos as int),
    ensures
        windows(a, pos, w) == windows(b, pos, w),
        partial(a, pos, w, pad) == partial(b, pos, w, pad),
{
    lemma_full_count(a.len(), pos, w);
    let c = full_count(a.len(), pos, w);
    assert forall|j: int| pos <= j < a.len() implies a[j] == b[j] by {
        assert(a.skip(pos as int)[j - pos] == b.skip(pos as int)[j - pos]);
    }
    assert forall|k: int| 0 <= k < c implies #[trigger] windows(a, pos, w)[k] == windows(
        b,
        pos,
        w,
    )[k] by {
        assert(k * w + w <= c * w) by (nonlinear_arith)
            requires
                0 <= k < c,
                w > 0,
        ;
        assert(0 <= k * w) by (nonlinear_arith)
            requires
                0 <= k,
                w > 0,
        ;
        assert(a.subrange(pos + k * w, pos + k * w + w) =~= b.subrange(
            pos + k * w,
            pos + k * w + w,
        ));
    }
    assert(windows(a, pos, w) =~= windows(b, pos, w));
    let start = tail_start(a.len(), pos, w);
    assert(a.subrange(start as int, a.len() as int) =~= b.subrange(start as int, b.len() as int));
}

/// The partial vector of a sequence which is read scalar by scalar: the
/// scalars `rest` which follow its whole vectors fill the lanes from the
/// last lane backward, so that they stand right-aligned and in reverse
/// order; the empty lanes before them hold the matching lanes of `pad`.
pub open spec fn reversed_partial<S>(rest: Seq<S>, w: nat, pad: Seq<S>) -> Option<(Seq<S>, nat)> {
    let left = rest.skip(tail_start(rest.len(), 0, w) as int);
    if 0 < left.len() && 0 < w {
        let empty = (w - left.len()) as nat;
        Some((pad.subrange(0, empty as int) + left.reverse(), empty))
    } else {
        None
    }
}

/// The whole vectors of what follows the first vector are the whole vectors
/// but the first, and the scalars which follow them are the same.
pub proof fn lemma_windows_skip<S>(s: Seq<S>, w: nat)
    requires
        0 < w <= s.len(),
    ensures
        windows(s, 0, w).len() > 0,
        windows(s, 0, w)[0] == s.subrange(0, w as int),
        windows(s.skip(w as int), 0, w) == windows(s, 0, w).drop_first(),
        s.skip(w as int).skip(tail_start((s.len() - w) as nat, 0, w) as int) == s.skip(
            tail_start(s.len(), 0, w) as int,
        ),
{
    let pad = Seq::<S>::empty();
    lemma_windows_step(s, 0, w, pad);
    lemma_full_count_step(s.len(), 0, w);
    let t = s.skip(w as int);
    lemma_full_count(s.len(), w, w);
    lemma_full_count(t.len(), 0, w);
    let c = full_count(t.len(), 0, w);
    assert(c == full_count(s.len(), w, w));
    let a = windows(t, 0, w);
    let b = windows(s, w, w);
    assert forall|k: int| 0 <= k < c implies #[trigger] a[k] == b[k] by {
        assert(k * w + w <= c * w) by (nonlinear_arith)
            requires
                0 <= k < c,
                w > 0,
        ;
        assert(0 <= k * w) by (nonlinear_arith)
            requires
                0 <= k,
                w > 0,
        ;
        assert(t.subrange(k * w, k * w + w) =~= s.subrange(w + k * w, w + k * w + w));
    }
    assert(a =~= b);
    assert(t.skip(tail_start(t.len(), 0, w) as int) =~= s.skip(tail_start(s.len(), 0, w) as int));
}

} // verus!
