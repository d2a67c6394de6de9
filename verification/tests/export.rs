use faster::into_scalar::IntoScalar;
use faster::iters::{SIMDIterable, SIMDIterator, SIMDObject, SIMDSized};
use faster::lanes::{i64s, u64s, u8s};
use faster::simd_iter::IntoSIMDIterator;
use faster::simd_map::rescale;

#[test]
fn exact_collect_returns_the_buffer() {
    for len in 0..40 {
        let data: Vec<u64> = (0..len as u64).map(|x| x * 7 + 2).collect();
        let back = data.clone().simd_iter(u64s(0)).scalar_collect();
        assert_eq!(back, data);
        let bytes: Vec<u8> = (0..(len * 3) as u32).map(|x| (x % 251) as u8).collect();
        let back = bytes.clone().simd_iter(u8s(0)).scalar_collect();
        assert_eq!(back, bytes);
    }
}

#[test]
fn exact_collect_starts_at_the_cursor() {
    let data: Vec<u64> = vec![1, 2, 3, 4, 5, 6, 7];
    let mut it = data.simd_iter(u64s(0));
    it.next();
    assert_eq!(it.scalar_collect(), vec![5, 6, 7]);
    assert!(it.next().is_none());
    assert!(it.end().is_none());
}

#[test]
fn untrimmed_collect_keeps_the_padding() {
    let data: Vec<u64> = vec![1, 2, 3, 4, 5];
    let all = data.simd_iter(u64s(0)).scalar_collect_all();
    assert_eq!(all, vec![1, 2, 3, 4, 0, 0, 0, 5]);
    let data: Vec<u64> = vec![1, 2, 3, 4, 5, 6];
    let all = data.simd_iter(u64s(9)).scalar_collect_all();
    assert_eq!(all, vec![1, 2, 3, 4, 9, 9, 5, 6]);
}

#[test]
fn untrimmed_collect_of_whole_vectors_is_the_buffer() {
    let data: Vec<u64> = vec![1, 2, 3, 4, 5, 6, 7, 8];
    let all = data.clone().simd_iter(u64s(0)).scalar_collect_all();
    assert_eq!(all, data);
    let none: Vec<u64> = Vec::new();
    assert_eq!(none.simd_iter(u64s(0)).scalar_collect_all(), Vec::<u64>::new());
}

#[test]
fn untrimmed_collect_truncated_where_the_padding_agrees() {
    let data: Vec<u64> = vec![1, 2, 3, 4, 6, 6];
    let mut all = data.clone().simd_iter(u64s(6)).scalar_collect_all();
    assert_eq!(all, vec![1, 2, 3, 4, 6, 6, 6, 6]);
    all.truncate(data.len());
    assert_eq!(all, data);
}

#[test]
fn exact_fill_writes_the_scalars_and_nothing_after_them() {
    let data: Vec<u64> = vec![1, 2, 3, 4, 5, 6];
    let mut out = [99u64; 9];
    {
        let filled = data.simd_iter(u64s(0)).scalar_fill(&mut out[..]);
        assert_eq!(filled.len(), 9);
        assert_eq!(&filled[..6], &[1, 2, 3, 4, 5, 6]);
    }
    assert_eq!(out, [1, 2, 3, 4, 5, 6, 99, 99, 99]);
}

#[test]
fn exact_fill_of_less_than_a_vector_stores_scalar_by_scalar() {
    let data: Vec<u64> = vec![4, 5];
    let mut out = [99u64; 2];
    data.simd_iter(u64s(0)).scalar_fill(&mut out[..]);
    assert_eq!(out, [4, 5]);
    let none: Vec<u64> = Vec::new();
    let mut out = [99u64; 1];
    none.simd_iter(u64s(0)).scalar_fill(&mut out[..]);
    assert_eq!(out, [99]);
}

#[test]
fn untrimmed_fill_writes_the_partial_vector_whole() {
    let data: Vec<u64> = vec![1, 2, 3, 4, 5, 6];
    let mut out = [99u64; 10];
    data.simd_iter(u64s(0)).scalar_fill_all(&mut out[..]);
    assert_eq!(out, [1, 2, 3, 4, 0, 0, 5, 6, 99, 99]);
}

#[test]
fn widening_map_rescales_the_empty_lanes() {
    let data = [1, 2, 3, 4, 5i64];
    let mut wide = (&data[..]).simd_iter(i64s(0)).simd_map(|v| v.to_le().be_u32s());
    assert_eq!(wide.next().unwrap().lanes, [1, 0, 2, 0, 3, 0, 4, 0]);
    assert!(wide.next().is_none());
    let (tail, empty) = wide.end().unwrap();
    assert_eq!(empty, 2 * 3);
    assert_eq!(tail.lanes, [0, 0, 0, 0, 0, 0, 5, 0]);
    assert!(wide.end().is_none());

    let mut bytes = (&data[..]).simd_iter(i64s(0)).simd_map(|v| v.to_le().be_u8s());
    bytes.next();
    let (_, empty) = bytes.end().unwrap();
    assert_eq!(empty, 8 * 3);
}

#[test]
fn widening_map_scales_the_collected_length() {
    for len in 0..20 {
        let data: Vec<i64> = (0..len as i64).collect();
        let halves = data.clone().simd_iter(i64s(0)).simd_map(|v| v.be_u32s()).scalar_collect();
        assert_eq!(halves.len(), 2 * len);
        let quarters = data.clone().simd_iter(i64s(0)).simd_map(|v| v.be_u16s()).scalar_collect();
        assert_eq!(quarters.len(), 4 * len);
        let bytes = data.clone().simd_iter(i64s(0)).simd_map(|v| v.be_u8s()).scalar_collect();
        assert_eq!(bytes.len(), 8 * len);
        for (i, x) in data.iter().enumerate() {
            assert_eq!(halves[2 * i] as i64, *x);
            assert_eq!(halves[2 * i + 1], 0);
            assert_eq!(bytes[8 * i] as i64, *x);
        }
    }
}

#[test]
fn reinterpretation_is_little_endian() {
    let v = i64s(0x0807_0605_0403_0201);
    assert_eq!(v.be_u32s().lanes[0], 0x0403_0201);
    assert_eq!(v.be_u32s().lanes[1], 0x0807_0605);
    assert_eq!(v.be_u16s().lanes[..4], [0x0201, 0x0403, 0x0605, 0x0807]);
    assert_eq!(v.be_u8s().lanes[..8], [1, 2, 3, 4, 5, 6, 7, 8]);
    let negative = i64s(-1);
    assert_eq!(negative.be_u32s().lanes, [u32::MAX; 8]);
    assert_eq!(negative.to_le().lanes, [-1i64; 4]);
}

#[test]
fn map_measures_its_length_in_its_own_scalars() {
    let data = [1, 2, 3, 4, 5i64];
    let wide = (&data[..]).simd_iter(i64s(0)).simd_map(|v| v.be_u32s());
    assert_eq!(wide.scalar_len(), 10);
    assert_eq!(wide.width(), 8);
    assert_eq!(wide.size(), 4);
    assert_eq!(wide.len(), 1);
    assert_eq!(wide.scalar_pos(), 0);
    assert_eq!(wide.default().lanes, [0u32; 8]);
}

#[test]
fn map_of_the_same_width_keeps_the_empty_lanes() {
    let data: Vec<u64> = vec![1, 2, 3, 4, 5, 6];
    let mut doubled = data.simd_iter(u64s(0)).simd_map(|v| {
        let mut out = v;
        for lane in out.lanes.iter_mut() {
            *lane *= 2;
        }
        out
    });
    assert_eq!(doubled.next().unwrap().lanes, [2, 4, 6, 8]);
    let (tail, empty) = doubled.end().unwrap();
    assert_eq!(empty, 2);
    assert_eq!(tail.lanes, [0, 0, 10, 12]);
}

#[test]
fn map_cursor_counts_the_scalars_of_the_map() {
    let data = [1, 2, 3, 4, 5i64];
    let mut wide = (&data[..]).simd_iter(i64s(0)).simd_map(|v| v.be_u32s());
    assert_eq!(wide.scalar_pos(), 0);
    wide.next();
    assert_eq!(wide.scalar_pos(), 8);
    assert_eq!(wide.vector_pos(), 1);
    wide.end();
    assert_eq!(wide.scalar_pos(), 10);
    assert_eq!(wide.scalar_pos(), wide.scalar_len());
}

#[test]
fn map_advances_the_producer_under_it_by_whole_scalars() {
    let data = [1, 2, 3, 4, 5, 6, 7i64];
    let mut wide = (&data[..]).simd_iter(i64s(0)).simd_map(|v| v.be_u32s());
    wide.advance(4);
    assert_eq!(wide.scalar_pos(), 4);
    assert_eq!(wide.iter.position, 2);
    assert_eq!(wide.next().unwrap().lanes, [3, 0, 4, 0, 5, 0, 6, 0]);
    wide.finalize();
    assert_eq!(wide.scalar_pos(), 14);
    assert!(wide.next().is_none());
    assert!(wide.end().is_none());
}

#[test]
fn narrowing_map_divides_the_empty_lanes_and_the_length() {
    let bytes: Vec<u8> = (1..=48).collect();
    let mut words = bytes.simd_iter(u8s(0)).simd_map(|v| {
        let mut out = u64s(0);
        for lane in 0..4 {
            let mut word = 0u64;
            for byte in 0..8 {
                word |= (v.lanes[8 * lane + byte] as u64) << (8 * byte);
            }
            out.lanes[lane] = word;
        }
        out
    });
    assert_eq!(words.scalar_len(), 48 / 8);
    assert_eq!(words.next().unwrap().lanes[0], 0x0807_0605_0403_0201);
    assert_eq!(words.scalar_pos(), 4);
    let (tail, empty) = words.end().unwrap();
    assert_eq!(empty, 16 / 8);
    assert_eq!(tail.lanes[0], 0);
    assert_eq!(tail.lanes[1], 0);
    assert_eq!(tail.lanes[2], 0x2827_2625_2423_2221);
    assert_eq!(tail.lanes[3], 0x302f_2e2d_2c2b_2a29);

    let bytes: Vec<u8> = (1..=48).collect();
    let collected = bytes.simd_iter(u8s(0)).simd_map(|v| {
        let mut out = u64s(0);
        for lane in 0..4 {
            out.lanes[lane] = v.lanes[8 * lane] as u64;
        }
        out
    }).scalar_collect();
    assert_eq!(collected, vec![1, 9, 17, 25, 33, 41]);
}

#[test]
fn rescale_counts_the_same_bytes_in_other_scalars() {
    assert_eq!(rescale(3, 8, 4), 6);
    assert_eq!(rescale(3, 8, 1), 24);
    assert_eq!(rescale(16, 1, 8), 2);
    assert_eq!(rescale(27, 1, 8), 3);
    assert_eq!(rescale(0, 8, 2), 0);
    assert_eq!(rescale(5, 4, 4), 5);
}
