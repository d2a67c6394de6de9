//! Portable vectors: a fixed number of lanes held in an array, 256 bits in
//! all, for machines or builds without vector registers.

use crate::vecs::{splice, Native, Packable, Packed};
use vstd::prelude::*;

verus! {

/// `N` scalars of type `S`, lane 0 first.
#[derive(Clone, Copy)]
pub struct Lanes<S, const N: usize> {
    pub lanes: [S; N],
}

/// An array with `s` in every place.
fn fill<S: Copy, const N: usize>(s: S) -> (out: [S; N])
    ensures
        out@ == Seq::new(N as nat, |i: int| s),
{
    let out: [S; N] = vstd::array::array_fill_for_copy_types(s);
    assert(out@ =~= Seq::new(N as nat, |i: int| s));
    out
}

/// The `N` scalars of `data` from `offset` on, as an array.
fn gather<S: Copy, const N: usize>(data: &[S], offset: usize) -> (out: [S; N])
    requires
        0 < N,
        offset + N <= data@.len(),
    ensures
        out@ == data@.subrange(offset as int, offset + N),
{
    let len = data.len();
    let mut out: [S; N] = vstd::array::array_fill_for_copy_types(data[offset]);
    let mut i: usize = 0;
    while i < N
        invariant
            i <= N,
            offset + N <= data@.len() == len,
            forall|j: int| 0 <= j < i ==> out@[j] == data@[offset + j],
        decreases N - i,
    {
        out[i] = data[offset + i];
        i += 1;
    }
    assert(out@ =~= data@.subrange(offset as int, offset + N));
    out
}

/// Write the `N` scalars of `src` over those of `data` from `offset` on.
fn scatter<S: Copy, const N: usize>(src: &[S; N], data: &mut [S], offset: usize)
    requires
        offset + N <= old(data)@.len(),
    ensures
        final(data)@ == splice(old(data)@, offset as int, src@),
{
    let len = data.len();
    let mut i: usize = 0;
    while i < N
        invariant
            i <= N,
            offset + N <= data@.len() == len,
            data@.len() == old(data)@.len(),
            forall|j: int| 0 <= j < i ==> data@[offset + j] == src@[j],
            forall|j: int|
                0 <= j < data@.len() && !(offset <= j < offset + i) ==> data@[j] == old(data)@[j],
        decreases N - i,
    {
        data[offset + i] = src[i];
        i += 1;
    }
    assert(data@ =~= splice(old(data)@, offset as int, src@));
}

/// The first `split` scalars of `low`, then the others of `high`.
fn blend<S: Copy, const N: usize>(low: &[S; N], high: &[S; N], split: usize) -> (out: [S; N])
    requires
        split <= N,
    ensures
        out@ == low@.subrange(0, split as int) + high@.subrange(split as int, N as int),
{
    let mut out: [S; N] = *high;
    let mut i: usize = 0;
    while i < split
        invariant
            i <= split <= N,
            forall|j: int| 0 <= j < i ==> out@[j] == low@[j],
            forall|j: int| i <= j < N ==> out@[j] == high@[j],
        decreases split - i,
    {
        out[i] = low[i];
        i += 1;
    }
    assert(out@ =~= low@.subrange(0, split as int) + high@.subrange(split as int, N as int));
    out
}

impl<S: Packable> Packed for Lanes<S, 4> {
    type Scalar = S;

    open spec fn spec_width() -> nat {
        4
    }

    open spec fn lanes(&self) -> Seq<S> {
        self.lanes@
    }

    proof fn lemma_width() {
    }

    proof fn lemma_lanes(&self) {
    }

    fn width() -> (w: usize) {
        4
    }

    fn default() -> (v: Self) {
        Lanes { lanes: fill(S::zero()) }
    }

    fn splat(s: S) -> (v: Self) {
        Lanes { lanes: fill(s) }
    }

    fn load(data: &[S], offset: usize) -> (v: Self) {
        Self::load_unchecked(data, offset)
    }

    fn load_unchecked(data: &[S], offset: usize) -> (v: Self) {
        Lanes { lanes: gather(data, offset) }
    }

    fn store(self, data: &mut [S], offset: usize) {
        self.store_unchecked(data, offset)
    }

    fn store_unchecked(self, data: &mut [S], offset: usize) {
        scatter(&self.lanes, data, offset)
    }

    fn extract_unchecked(&self, idx: usize) -> (s: S) {
        self.lanes[idx]
    }

    fn replace_unchecked(self, idx: usize, val: S) -> (v: Self) {
        let mut out = self;
        out.lanes[idx] = val;
        out
    }

    fn merge_partitioned(self, other: Self, offset: usize) -> (v: Self) {
        Lanes { lanes: blend(&self.lanes, &other.lanes, offset) }
    }
}

impl<S: Packable> Packed for Lanes<S, 8> {
    type Scalar = S;

    open spec fn spec_width() -> nat {
        8
    }

    open spec fn lanes(&self) -> Seq<S> {
        self.lanes@
    }

    proof fn lemma_width() {
    }

    proof fn lemma_lanes(&self) {
    }

    fn width() -> (w: usize) {
        8
    }

    fn default() -> (v: Self) {
        Lanes { lanes: fill(S::zero()) }
    }

    fn splat(s: S) -> (v: Self) {
        Lanes { lanes: fill(s) }
    }

    fn load(data: &[S], offset: usize) -> (v: Self) {
        Self::load_unchecked(data, offset)
    }

    fn load_unchecked(data: &[S], offset: usize) -> (v: Self) {
        Lanes { lanes: gather(data, offset) }
    }

    fn store(self, data: &mut [S], offset: usize) {
        self.store_unchecked(data, offset)
    }

    fn store_unchecked(self, data: &mut [S], offset: usize) {
        scatter(&self.lanes, data, offset)
    }

    fn extract_unchecked(&self, idx: usize) -> (s: S) {
        self.lanes[idx]
    }

    fn replace_unchecked(self, idx: usize, val: S) -> (v: Self) {
        let mut out = self;
        out.lanes[idx] = val;
        out
    }

    fn merge_partitioned(self, other: Self, offset: usize) -> (v: Self) {
        Lanes { lanes: blend(&self.lanes, &other.lanes, offset) }
    }
}

impl<S: Packable> Packed for Lanes<S, 16> {
    type Scalar = S;

    open spec fn spec_width() -> nat {
        16
    }

    open spec fn lanes(&self) -> Seq<S> {
        self.lanes@
    }

    proof fn lemma_width() {
    }

    proof fn lemma_lanes(&self) {
    }

    fn width() -> (w: usize) {
        16
    }

    fn default() -> (v: Self) {
        Lanes { lanes: fill(S::zero()) }
    }

    fn splat(s: S) -> (v: Self) {
        Lanes { lanes: fill(s) }
    }

    fn load(data: &[S], offset: usize) -> (v: Self) {
        Self::load_unchecked(data, offset)
    }

    fn load_unchecked(data: &[S], offset: usize) -> (v: Self) {
        Lanes { lanes: gather(data, offset) }
    }

    fn store(self, data: &mut [S], offset: usize) {
        self.store_unchecked(data, offset)
    }

    fn store_unchecked(self, data: &mut [S], offset: usize) {
        scatter(&self.lanes, data, offset)
    }

    fn extract_unchecked(&self, idx: usize) -> (s: S) {
        self.lanes[idx]
    }

    fn replace_unchecked(self, idx: usize, val: S) -> (v: Self) {
        let mut out = self;
        out.lanes[idx] = val;
        out
    }

    fn merge_partitioned(self, other: Self, offset: usize) -> (v: Self) {
        Lanes { lanes: blend(&self.lanes, &other.lanes, offset) }
    }
}

impl<S: Packable> Packed for Lanes<S, 32> {
    type Scalar = S;

    open spec fn spec_width() -> nat {
        32
    }

    open spec fn lanes(&self) -> Seq<S> {
        self.lanes@
    }

    proof fn lemma_width() {
    }

    proof fn lemma_lanes(&self) {
    }

    fn width() -> (w: usize) {
        32
    }

    fn default() -> (v: Self) {
        Lanes { lanes: fill(S::zero()) }
    }

    fn splat(s: S) -> (v: Self) {
        Lanes { lanes: fill(s) }
    }

    fn load(data: &[S], offset: usize) -> (v: Self) {
        Self::load_unchecked(data, offset)
    }

    fn load_unchecked(data: &[S], offset: usize) -> (v: Self) {
        Lanes { lanes: gather(data, offset) }
    }

    fn store(self, data: &mut [S], offset: usize) {
        self.store_unchecked(data, offset)
    }

    fn store_unchecked(self, data: &mut [S], offset: usize) {
        scatter(&self.lanes, data, offset)
    }

    fn extract_unchecked(&self, idx: usize) -> (s: S) {
        self.lanes[idx]
    }

    fn replace_unchecked(self, idx: usize, val: S) -> (v: Self) {
        let mut out = self;
        out.lanes[idx] = val;
        out
    }

    fn merge_partitioned(self, other: Self, offset: usize) -> (v: Self) {
        Lanes { lanes: blend(&self.lanes, &other.lanes, offset) }
    }
}

impl Packable for u8 {
    open spec fn spec_size() -> nat {
        1
    }

    open spec fn spec_zero() -> u8 {
        0
    }

    proof fn lemma_size() {
    }

    fn size() -> (n: usize) {
        1
    }

    fn zero() -> (z: u8) {
        0
    }
}

impl Native for u8 {
    type Vector = Lanes<u8, 32>;
}

/// Return a vector with `x` in every lane.
pub fn u8s(x: u8) -> (v: Lanes<u8, 32>)
    ensures
        v.lanes() == Seq::new(32, |i: int| x),
{
    Lanes { lanes: fill(x) }
}

impl Packable for u16 {
    open spec fn spec_size() -> nat {
        2
    }

    open spec fn spec_zero() -> u16 {
        0
    }

    proof fn lemma_size() {
    }

    fn size() -> (n: usize) {
        2
    }

    fn zero() -> (z: u16) {
        0
    }
}

impl Native for u16 {
    type Vector = Lanes<u16, 16>;
}

/// Return a vector with `x` in every lane.
pub fn u16s(x: u16) -> (v: Lanes<u16, 16>)
    ensures
        v.lanes() == Seq::new(16, |i: int| x),
{
    Lanes { lanes: fill(x) }
}

impl Packable for u32 {
    open spec fn spec_size() -> nat {
        4
    }

    open spec fn spec_zero() -> u32 {
        0
    }

    proof fn lemma_size() {
    }

    fn size() -> (n: usize) {
        4
    }

    fn zero() -> (z: u32) {
        0
    }
}

impl Native for u32 {
    type Vector = Lanes<u32, 8>;
}

/// Return a vector with `x` in every lane.
pub fn u32s(x: u32) -> (v: Lanes<u32, 8>)
    ensures
        v.lanes() == Seq::new(8, |i: int| x),
{
    Lanes { lanes: fill(x) }
}

impl Packable for u64 {
    open spec fn spec_size() -> nat {
        8
    }

    open spec fn spec_zero() -> u64 {
        0
    }

    proof fn lemma_size() {
    }

    fn size() -> (n: usize) {
        8
    }

    fn zero() -> (z: u64) {
        0
    }
}

impl Native for u64 {
    type Vector = Lanes<u64, 4>;
}

/// Return a vector with `x` in every lane.
pub fn u64s(x: u64) -> (v: Lanes<u64, 4>)
    ensures
        v.lanes() == Seq::new(4, |i: int| x),
{
    Lanes { lanes: fill(x) }
}

impl Packable for i64 {
    open spec fn spec_size() -> nat {
        8
    }

    open spec fn spec_zero() -> i64 {
        0
    }

    proof fn lemma_size() {
    }

    fn size() -> (n: usize) {
        8
    }

    fn zero() -> (z: i64) {
        0
    }
}

impl Native for i64 {
    type Vector = Lanes<i64, 4>;
}

/// Return a vector with `x` in every lane.
pub fn i64s(x: i64) -> (v: Lanes<i64, 4>)
    ensures
        v.lanes() == Seq::new(4, |i: int| x),
{
    Lanes { lanes: fill(x) }
}

/// The `k`-th group of `bits` bits of `x`, counted from the lowest: what
/// stands `k` places after the first when the scalar is stored
/// little-endian and read back as narrower scalars.
pub open spec fn le_part(x: i64, bits: nat, k: nat) -> u64 {
    (x as u64) >> ((bits * k) as u64)
}

impl Lanes<i64, 4> {
    /// Convert the lanes to little-endian order. These vectors define
    /// their reinterpretations in little-endian order on every machine, so
    /// the lanes stay as they are.
    pub fn to_le(self) -> (r: Self)
        ensures
            r == self,
    {
        self
    }

    /// Reinterpret the bits as twice as many scalars of half the size,
    /// little-endian: lane `j` of the result holds the `j % 2`-th half of
    /// lane `j / 2`.
    pub fn be_u32s(self) -> (r: Lanes<u32, 8>)
        ensures
            r.lanes() == Seq::new(8, |j: int| le_part(self.lanes()[j / 2], 32, (j % 2) as nat) as u32),
    {
        let mut out: [u32; 8] = [0u32;8];
        let mut j: usize = 0;
        while j < 8
            invariant
                j <= 8,
                forall|i: int|
                    0 <= i < j ==> out@[i] == le_part(self.lanes@[i / 2], 32, (i % 2) as nat) as u32,
            decreases 8 - j,
        {
            let x = self.lanes[j / 2];
            let shift = 32 * ((j % 2) as u64);
            out[j] = #[verifier::truncate] (((x as u64) >> shift) as u32);
            j += 1;
        }
        assert(out@ =~= Seq::new(
            8,
            |j: int| le_part(self.lanes()[j / 2], 32, (j % 2) as nat) as u32,
        ));
        Lanes { lanes: out }
    }

    /// Reinterpret the bits as four times as many scalars of a quarter of
    /// the size, little-endian: lane `j` of the result holds the `j % 4`-th
    /// quarter of lane `j / 4`.
    pub fn be_u16s(self) -> (r: Lanes<u16, 16>)
        ensures
            r.lanes() == Seq::new(
                16,
                |j: int| le_part(self.lanes()[j / 4], 16, (j % 4) as nat) as u16,
            ),
    {
        let mut out: [u16; 16] = [0u16;16];
        let mut j: usize = 0;
        while j < 16
            invariant
                j <= 16,
                forall|i: int|
                    0 <= i < j ==> out@[i] == le_part(self.lanes@[i / 4], 16, (i % 4) as nat) as u16,
            decreases 16 - j,
        {
            let x = self.lanes[j / 4];
            let shift = 16 * ((j % 4) as u64);
            out[j] = #[verifier::truncate] (((x as u64) >> shift) as u16);
            j += 1;
        }
        assert(out@ =~= Seq::new(
            16,
            |j: int| le_part(self.lanes()[j / 4], 16, (j % 4) as nat) as u16,
        ));
        Lanes { lanes: out }
    }

    /// Reinterpret the bits as eight times as many bytes, little-endian:
    /// lane `j` of the result holds the `j % 8`-th byte of lane `j / 8`.
    pub fn be_u8s(self) -> (r: Lanes<u8, 32>)
        ensures
            r.lanes() == Seq::new(32, |j: int| le_part(self.lanes()[j / 8], 8, (j % 8) as nat) as u8),
    {
        let mut out: [u8; 32] = [0u8;32];
        let mut j: usize = 0;
        while j < 32
            invariant
                j <= 32,
                forall|i: int|
                    0 <= i < j ==> out@[i] == le_part(self.lanes@[i / 8], 8, (i % 8) as nat) as u8,
            decreases 32 - j,
        {
            let x = self.lanes[j / 8];
            let shift = 8 * ((j % 8) as u64);
            out[j] = #[verifier::truncate] (((x as u64) >> shift) as u8);
            j += 1;
        }
        assert(out@ =~= Seq::new(
            32,
            |j: int| le_part(self.lanes()[j / 8], 8, (j % 8) as nat) as u8,
        ));
        Lanes { lanes: out }
    }
}

} // verus!
