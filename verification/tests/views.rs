use faster::adapter::{ScalarSequence, Scalars, SIMDAdapter};
use faster::into_scalar::IntoScalar;
use faster::iters::{SIMDIterable, SIMDIterator, SIMDSized};
use faster::lanes::{u64s, Lanes};
use faster::simd_iter::IntoSIMDIterator;

fn batch_lengths(vectors: usize, amt: usize) -> Vec<usize> {
    let data: Vec<u64> = vec![1; vectors * 4];
    let mut it = data.simd_iter(u64s(0));
    let mut unrolled = it.unroll(amt);
    let mut lengths = Vec::new();
    while let Some(batch) = unrolled.next() {
        lengths.push(batch.len());
    }
    lengths
}

#[test]
fn unroll_makes_as_many_batches_as_the_quotient_rounded_up() {
    for vectors in 0..20 {
        for amt in 1..9 {
            let lengths = batch_lengths(vectors, amt);
            assert_eq!(lengths.len(), (vectors + amt - 1) / amt);
            if vectors > 0 {
                let last = if vectors % amt == 0 { amt } else { vectors % amt };
                assert_eq!(*lengths.last().unwrap(), last);
                assert!(lengths[..lengths.len() - 1].iter().all(|n| *n == amt));
            }
        }
    }
}

#[test]
fn unroll_hands_out_the_vectors_in_order() {
    let data: Vec<u64> = (0..22).collect();
    let mut it = data.simd_iter(u64s(0));
    {
        let mut unrolled = it.unroll(3);
        assert_eq!(unrolled.chunk_len(), 3);
        assert_eq!(unrolled.chunk_pos(), 0);
        {
            let batch = unrolled.next().unwrap();
            assert_eq!(batch.len(), 3);
            assert_eq!(batch[0].lanes, [0, 1, 2, 3]);
            assert_eq!(batch[1].lanes, [4, 5, 6, 7]);
            assert_eq!(batch[2].lanes, [8, 9, 10, 11]);
        }
        assert_eq!(unrolled.chunk_pos(), 1);
        {
            let batch = unrolled.next().unwrap();
            assert_eq!(batch.len(), 2);
            assert_eq!(batch[0].lanes, [12, 13, 14, 15]);
            assert_eq!(batch[1].lanes, [16, 17, 18, 19]);
        }
        assert!(unrolled.next().is_none());
    }
    let (tail, empty) = it.end().unwrap();
    assert_eq!(empty, 2);
    assert_eq!(tail.lanes, [0, 0, 20, 21]);
}

#[test]
fn unroll_by_nothing_yields_nothing() {
    let data: Vec<u64> = (0..8).collect();
    let mut it = data.simd_iter(u64s(0));
    {
        let mut unrolled = it.unroll(0);
        assert_eq!(unrolled.chunk_len(), 0);
        assert!(unrolled.next().is_none());
    }
    assert_eq!(it.scalar_pos(), 0);
}

#[test]
fn unpack_yields_the_scalars_one_by_one() {
    let data: Vec<u64> = vec![5, 6, 7];
    let mut scalars = data.simd_iter(u64s(0)).unpack();
    assert_eq!(scalars.next(), Some(5));
    assert_eq!(scalars.next(), Some(6));
    assert_eq!(scalars.next(), Some(7));
    assert_eq!(scalars.next(), None);
    assert_eq!(scalars.next(), None);
}

#[test]
fn pack_gives_the_producer_back_where_the_view_left_it() {
    let data: Vec<u64> = vec![1, 2, 3, 4, 5, 6, 7];
    let mut scalars = data.simd_iter(u64s(0)).unpack();
    assert_eq!(scalars.next(), Some(1));
    let mut it = scalars.pack();
    assert_eq!(it.scalar_pos(), 1);
    assert_eq!(it.next().unwrap().lanes, [2, 3, 4, 5]);
    let (tail, empty) = it.end().unwrap();
    assert_eq!(empty, 2);
    assert_eq!(tail.lanes, [0, 0, 6, 7]);
}

#[test]
fn scalar_sequence_hands_out_a_vector_in_order() {
    let mut seq = Scalars::new(vec![3u64, 4, 5]);
    assert_eq!(seq.len(), 3);
    assert_eq!(seq.next(), Some(3));
    assert_eq!(seq.len(), 2);
    assert_eq!(seq.next(), Some(4));
    assert_eq!(seq.next(), Some(5));
    assert_eq!(seq.next(), None);
    assert_eq!(seq.len(), 0);
}

#[test]
fn adapter_packs_whole_vectors_lane_by_lane() {
    let source = Scalars::new((1..=10u64).collect());
    let mut it: SIMDAdapter<Scalars<u64>, Lanes<u64, 4>> = SIMDAdapter::new(source, u64s(0));
    assert_eq!(it.scalar_len(), 10);
    assert_eq!(it.len(), 2);
    assert_eq!(it.next().unwrap().lanes, [1, 2, 3, 4]);
    assert_eq!(it.scalar_pos(), 4);
    assert_eq!(it.scalar_len(), 10);
    assert_eq!(it.next().unwrap().lanes, [5, 6, 7, 8]);
    assert!(it.next().is_none());
    assert_eq!(it.scalar_pos(), 8);
}

#[test]
fn adapter_fills_its_partial_vector_from_the_last_lane_backward() {
    let source = Scalars::new((1..=10u64).collect());
    let mut it: SIMDAdapter<Scalars<u64>, Lanes<u64, 4>> = SIMDAdapter::new(source, u64s(7));
    while let Some(_) = it.next() {}
    let (tail, empty) = it.end().unwrap();
    assert_eq!(empty, 2);
    assert_eq!(tail.lanes, [7, 7, 10, 9]);
    assert_eq!(it.scalar_pos(), 10);
    assert!(it.end().is_none());

    let source = Scalars::new(vec![1u64, 2, 3]);
    let mut it: SIMDAdapter<Scalars<u64>, Lanes<u64, 4>> = SIMDAdapter::new(source, u64s(7));
    assert!(it.next().is_none());
    let (tail, empty) = it.end().unwrap();
    assert_eq!(empty, 1);
    assert_eq!(tail.lanes, [7, 3, 2, 1]);
}

#[test]
fn adapter_over_nothing_yields_nothing() {
    let source = Scalars::new(Vec::<u64>::new());
    let mut it: SIMDAdapter<Scalars<u64>, Lanes<u64, 4>> = SIMDAdapter::new(source, u64s(7));
    assert!(it.next().is_none());
    assert!(it.end().is_none());
    assert_eq!(it.default().lanes, [7, 7, 7, 7]);
}

#[test]
fn adapter_finalize_drains_the_sequence() {
    let source = Scalars::new((1..=6u64).collect());
    let mut it: SIMDAdapter<Scalars<u64>, Lanes<u64, 4>> = SIMDAdapter::new(source, u64s(7));
    it.finalize();
    assert_eq!(it.scalar_pos(), 6);
    assert!(it.next().is_none());
    assert!(it.end().is_none());
}

#[test]
fn adapter_collects_whole_vectors_in_order() {
    let source = Scalars::new((1..=8u64).collect());
    let mut it: SIMDAdapter<Scalars<u64>, Lanes<u64, 4>> = SIMDAdapter::new(source, u64s(0));
    assert_eq!(it.scalar_collect(), vec![1, 2, 3, 4, 5, 6, 7, 8]);
    let source = Scalars::new((1..=6u64).collect());
    let mut it: SIMDAdapter<Scalars<u64>, Lanes<u64, 4>> = SIMDAdapter::new(source, u64s(0));
    assert_eq!(it.scalar_collect(), vec![1, 2, 3, 4, 6, 5]);
}
