use faster::into_scalar::IntoScalar;
use faster::iters::SIMDIterator;
use faster::lanes::i64s;
use faster::simd_iter::IntoSIMDIterator;

#[test]
fn bitcast_map_width_doubles() {
    let y = [1, 2, 3, 4, 5i64].simd_iter(i64s(0))
        .simd_map(|v| v.to_le().be_u32s())
        .scalar_collect();

    assert_eq!(y, [1, 0, 2, 0, 3, 0, 4, 0, 5, 0]);
}

#[test]
fn bitcast_map_width_quadruples() {
    let y = [1, 2, 3, 4, 5i64].simd_iter(i64s(0))
        .simd_map(|v| v.to_le().be_u16s())
        .scalar_collect();

    assert_eq!(y, [1, 0, 0, 0, 2, 0, 0, 0, 3, 0, 0, 0,
                   4, 0, 0, 0, 5, 0, 0, 0]);
}

#[test]
fn bitcast_map_width_octuples() {
    let y = [1, 2, 3, 4, 5i64].simd_iter(i64s(0))
        .simd_map(|v| v.to_le().be_u8s())
        .scalar_collect();

    assert_eq!(y.as_slice(),
               &[1, 0, 0, 0, 0, 0, 0, 0, 2, 0, 0, 0, 0, 0, 0, 0,
                 3, 0, 0, 0, 0, 0, 0, 0, 4, 0, 0, 0, 0, 0, 0, 0,
                 5, 0, 0, 0, 0, 0, 0, 0u8][..]);
}
