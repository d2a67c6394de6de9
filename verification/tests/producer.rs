use faster::iters::{
    SIMDArray, SIMDArrayMut, SIMDIterable, SIMDIterator, SIMDIteratorMut, SIMDObject, SIMDSized,
    UnsafeIterator,
};
use faster::lanes::{u64s, u8s, Lanes};
use faster::simd_iter::{IntoSIMDIterator, SIMDIter};
use faster::vecs::Packed;

fn lanes4(v: Lanes<u64, 4>) -> [u64; 4] {
    v.lanes
}

#[test]
fn exact_multiple_has_no_partial_vector() {
    let data: Vec<u64> = vec![1, 2, 3, 4, 5, 6, 7, 8];
    let mut it = data.simd_iter(u64s(0));
    assert_eq!(it.scalar_len(), 8);
    assert_eq!(it.vector_len(), 2);
    assert_eq!(it.len(), 2);
    assert_eq!(lanes4(it.next().unwrap()), [1, 2, 3, 4]);
    assert_eq!(it.scalar_pos(), 4);
    assert_eq!(it.vector_pos(), 1);
    assert_eq!(lanes4(it.next().unwrap()), [5, 6, 7, 8]);
    assert!(it.next().is_none());
    assert!(it.end().is_none());
    assert_eq!(it.scalar_pos(), 8);
}

#[test]
fn inexact_multiple_ends_in_one_partial_vector() {
    let data: Vec<u64> = vec![1, 2, 3, 4, 5, 6, 7, 8, 9, 10];
    let mut it = data.simd_iter(u64s(77));
    let mut steps = 0;
    while let Some(_) = it.next() {
        steps += 1;
    }
    assert_eq!(steps, 10 / 4);
    let (tail, empty) = it.end().unwrap();
    assert_eq!(empty, 4 - 10 % 4);
    assert_eq!(lanes4(tail), [77, 77, 9, 10]);
    assert_eq!(it.scalar_pos(), 10);
    assert!(it.next().is_none());
    assert!(it.end().is_none());
}

#[test]
fn empty_buffer_yields_nothing() {
    let data: Vec<u64> = Vec::new();
    let mut it = data.simd_iter(u64s(0));
    assert!(it.next().is_none());
    assert!(it.end().is_none());
    assert_eq!(it.scalar_pos(), 0);
    assert_eq!(it.len(), 0);
}

#[test]
fn buffer_shorter_than_a_vector_is_loaded_scalar_by_scalar() {
    let data: [u64; 3] = [7, 8, 9];
    let mut it = (&data[..]).simd_iter(u64s(1));
    assert!(it.next().is_none());
    let (tail, empty) = it.end().unwrap();
    assert_eq!(empty, 1);
    assert_eq!(lanes4(tail), [1, 7, 8, 9]);
    assert_eq!(it.scalar_pos(), 3);
}

#[test]
fn partial_vector_after_a_moved_cursor_in_a_short_buffer() {
    let data: [u64; 3] = [7, 8, 9];
    let mut it = (&data[..]).simd_iter(u64s(1));
    it.advance(1);
    let (tail, empty) = it.end().unwrap();
    assert_eq!(empty, 2);
    assert_eq!(lanes4(tail), [1, 1, 8, 9]);
}

#[test]
fn partial_vector_is_right_aligned_over_the_default() {
    let data: [u64; 5] = [1, 2, 3, 4, 5];
    let mut it = (&data[..]).simd_iter(u64s(0));
    assert_eq!(lanes4(it.next().unwrap()), [1, 2, 3, 4]);
    let (tail, empty) = it.end().unwrap();
    assert_eq!(empty, 3);
    assert_eq!(lanes4(tail), [0, 0, 0, 5]);
}

#[test]
fn width_and_size_follow_the_vector_type() {
    let words: Vec<u64> = vec![0; 4];
    let it = words.simd_iter(u64s(0));
    assert_eq!(it.width(), 4);
    assert_eq!(it.size(), 8);
    let bytes: Vec<u8> = vec![0; 40];
    let it = bytes.simd_iter(u8s(0));
    assert_eq!(it.width(), 32);
    assert_eq!(it.size(), 1);
    assert_eq!(it.vector_len(), 1);
}

#[test]
fn default_is_the_vector_given_at_construction() {
    let data: Vec<u64> = vec![1, 2];
    let it = data.simd_iter(u64s(9));
    assert_eq!(lanes4(it.default()), [9, 9, 9, 9]);
}

#[test]
fn finalize_leaves_nothing_to_hand_out() {
    let data: Vec<u64> = vec![1, 2, 3, 4, 5];
    let mut it = data.simd_iter(u64s(0));
    it.finalize();
    assert_eq!(it.scalar_pos(), 5);
    assert!(it.next().is_none());
    assert!(it.end().is_none());
}

#[test]
fn loads_through_the_producer_read_the_buffer() {
    let data: Vec<u64> = vec![10, 11, 12, 13, 14, 15];
    let it = data.simd_iter(u64s(0));
    assert_eq!(lanes4(it.load(1)), [11, 12, 13, 14]);
    assert_eq!(lanes4(it.load_unchecked(2)), [12, 13, 14, 15]);
    assert_eq!(it.load_scalar(5), 15);
    assert_eq!(it.load_scalar_unchecked(0), 10);
}

#[test]
fn positional_loads_leave_the_cursor_alone() {
    let data: Vec<u64> = vec![10, 11, 12, 13, 14, 15];
    let mut it = data.simd_iter(u64s(3));
    assert_eq!(lanes4(it.next_unchecked(2)), [12, 13, 14, 15]);
    assert_eq!(it.scalar_pos(), 0);
    assert_eq!(lanes4(it.end_unchecked(4, 2)), [3, 3, 14, 15]);
    assert_eq!(it.scalar_pos(), 0);
    let short: Vec<u64> = vec![5, 6];
    let mut it = short.simd_iter(u64s(3));
    assert_eq!(lanes4(it.end_unchecked(1, 3)), [3, 3, 3, 6]);
    assert_eq!(lanes4(it.end_unchecked(0, 2)), [3, 3, 5, 6]);
}

#[test]
fn stores_write_into_a_mutable_slice() {
    let mut data: [u64; 6] = [0, 1, 2, 3, 4, 5];
    {
        let mut view = &mut data[..];
        view.store(u64s(9), 1);
        view.store_scalar(7, 5);
        assert_eq!(view.scalar_len(), 6);
        assert_eq!(view.load_scalar(1), 9);
    }
    assert_eq!(data, [0, 9, 9, 9, 9, 7]);
    {
        let mut view = &mut data[..];
        view.store_unchecked(u64s(2), 0);
        view.store_scalar_unchecked(8, 4);
    }
    assert_eq!(data, [2, 2, 2, 2, 8, 7]);
}

#[test]
fn identity_mutator_leaves_the_buffer_unchanged() {
    for len in 0..13 {
        let source: Vec<u64> = (0..len as u64).map(|x| x * 3 + 1).collect();
        let mut data = source.clone();
        (&mut data[..]).simd_iter(u64s(0)).simd_for_each(|_v| {});
        assert_eq!(data, source);
    }
}

#[test]
fn mutator_rewrites_every_scalar_once() {
    for len in 0..13 {
        let source: Vec<u64> = (0..len as u64).map(|x| x * 3 + 1).collect();
        let mut data = source.clone();
        (&mut data[..]).simd_iter(u64s(0)).simd_for_each(|v| {
            for lane in v.lanes.iter_mut() {
                *lane += 100;
            }
        });
        let expected: Vec<u64> = source.iter().map(|x| x + 100).collect();
        assert_eq!(data, expected);
    }
}

#[test]
fn mutator_sees_the_default_in_the_empty_lanes() {
    let mut data: Vec<u64> = vec![1, 2, 3, 4, 5, 6];
    let mut seen: Vec<[u64; 4]> = Vec::new();
    (&mut data[..]).simd_iter(u64s(42)).simd_for_each(|v| {
        seen.push(v.lanes);
    });
    assert_eq!(seen, vec![[1, 2, 3, 4], [42, 42, 5, 6]]);
    assert_eq!(data, vec![1, 2, 3, 4, 5, 6]);
}

#[test]
fn mutation_from_a_moved_cursor_leaves_what_is_behind_it() {
    let mut data: Vec<u64> = vec![1, 2, 3, 4, 5];
    let mut it = SIMDIter { position: 4, data: &mut data[..], default: u64s(0) };
    it.simd_for_each(|v| {
        for lane in v.lanes.iter_mut() {
            *lane += 10;
        }
    });
    assert_eq!(data, vec![1, 2, 3, 4, 15]);
    let mut data: Vec<u64> = vec![1, 2, 3, 4, 5, 6, 7];
    let mut it = SIMDIter { position: 2, data: &mut data[..], default: u64s(0) };
    it.simd_for_each(|v| {
        for lane in v.lanes.iter_mut() {
            *lane += 10;
        }
    });
    assert_eq!(data, vec![1, 2, 13, 14, 15, 16, 17]);
}

#[test]
fn do_each_visits_whole_vectors_then_the_partial_one() {
    let data: Vec<u64> = vec![1, 2, 3, 4, 5, 6, 7, 8, 9];
    let mut seen: Vec<[u64; 4]> = Vec::new();
    data.simd_iter(u64s(0)).simd_do_each(|v| seen.push(v.lanes));
    assert_eq!(seen, vec![[1, 2, 3, 4], [5, 6, 7, 8], [0, 0, 0, 9]]);
}

#[test]
fn reduce_folds_whole_vectors_then_the_partial_one() {
    let data: Vec<u64> = vec![1, 2, 3, 4, 5, 6, 7, 8, 9];
    let total = data.simd_iter(u64s(0)).simd_reduce(0u64, |acc, v| {
        acc * 2 + v.lanes[0] + v.lanes[1] + v.lanes[2] + v.lanes[3]
    });
    assert_eq!(total, (10 * 2 + 26) * 2 + 9);
    let lanes = vec![2u64; 6].simd_iter(u64s(0)).simd_reduce(u64s(0), |acc, v| {
        let mut out = acc;
        for i in 0..4 {
            out = out.replace_unchecked(i, acc.extract_unchecked(i) + v.extract_unchecked(i));
        }
        out
    });
    assert_eq!(lanes4(lanes), [2, 2, 4, 4]);
}

#[test]
fn cursor_moves_by_the_width_and_then_to_the_end() {
    let data: Vec<u64> = vec![1, 2, 3, 4, 5, 6, 7, 8, 9];
    let mut it = data.simd_iter(u64s(0));
    let mut expected = 0;
    while let Some(_) = it.next() {
        expected += it.width();
        assert_eq!(it.scalar_pos(), expected);
    }
    assert_eq!(it.scalar_pos(), 8);
    it.end();
    assert_eq!(it.scalar_pos(), it.scalar_len());
}
