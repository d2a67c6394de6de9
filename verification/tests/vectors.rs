use faster::lanes::{i64s, u16s, u32s, u64s, u8s, Lanes};
use faster::vecs::{Packable, Packed};

#[test]
fn widths_and_sizes_fill_the_same_number_of_bytes() {
    assert_eq!(<Lanes<u8, 32> as Packed>::width() * <u8 as Packable>::size(), 32);
    assert_eq!(<Lanes<u16, 16> as Packed>::width() * <u16 as Packable>::size(), 32);
    assert_eq!(<Lanes<u32, 8> as Packed>::width() * <u32 as Packable>::size(), 32);
    assert_eq!(<Lanes<u64, 4> as Packed>::width() * <u64 as Packable>::size(), 32);
    assert_eq!(<Lanes<i64, 4> as Packed>::width() * <i64 as Packable>::size(), 32);
}

#[test]
fn splat_and_default_fill_every_lane() {
    assert_eq!(u8s(3).lanes, [3u8; 32]);
    assert_eq!(u16s(3).lanes, [3u16; 16]);
    assert_eq!(u32s(3).lanes, [3u32; 8]);
    assert_eq!(u64s(3).lanes, [3u64; 4]);
    assert_eq!(i64s(-3).lanes, [-3i64; 4]);
    assert_eq!(<Lanes<u32, 8> as Packed>::default().lanes, [0u32; 8]);
    assert_eq!(<Lanes<u32, 8> as Packed>::splat(5).lanes, [5u32; 8]);
    assert_eq!(<u64 as Packable>::zero(), 0);
}

#[test]
fn load_reads_a_window_and_store_writes_one() {
    let data: Vec<u32> = (0..12).collect();
    let v = <Lanes<u32, 8> as Packed>::load(&data, 3);
    assert_eq!(v.lanes, [3, 4, 5, 6, 7, 8, 9, 10]);
    let v = <Lanes<u32, 8> as Packed>::load_unchecked(&data, 4);
    assert_eq!(v.lanes, [4, 5, 6, 7, 8, 9, 10, 11]);
    let mut out = vec![0u32; 10];
    v.store(&mut out, 1);
    assert_eq!(out, vec![0, 4, 5, 6, 7, 8, 9, 10, 11, 0]);
    u32s(1).store_unchecked(&mut out, 2);
    assert_eq!(out, vec![0, 4, 1, 1, 1, 1, 1, 1, 1, 1]);
}

#[test]
fn lanes_are_read_and_replaced_by_index() {
    let v = u64s(1).replace_unchecked(2, 9);
    assert_eq!(v.lanes, [1, 1, 9, 1]);
    assert_eq!(v.extract_unchecked(2), 9);
    assert_eq!(v.extract_unchecked(0), 1);
}

#[test]
fn merge_takes_the_low_lanes_of_the_first_vector() {
    let low = u64s(1);
    let high = Lanes { lanes: [5u64, 6, 7, 8] };
    assert_eq!(low.merge_partitioned(high, 0).lanes, [5, 6, 7, 8]);
    assert_eq!(low.merge_partitioned(high, 1).lanes, [1, 6, 7, 8]);
    assert_eq!(low.merge_partitioned(high, 3).lanes, [1, 1, 1, 8]);
    assert_eq!(low.merge_partitioned(high, 4).lanes, [1, 1, 1, 1]);
}
