use rustier_chess::types::bitmap::BitMap;

#[test]
fn bitmap_test_read_bit() {
    let bitmap = BitMap::new(5);

    assert_eq!(bitmap.read_bit(0), true);
    assert_eq!(bitmap.read_bit(1), false);
    assert_eq!(bitmap.read_bit(2), true);
    assert_eq!(bitmap.read_bit(3), false);
}

#[test]
fn bitmap_test_set_zero() {
    let mut bitmap = BitMap::new(5);

    bitmap.set_zero(2);
    assert_eq!(bitmap.value, 1);

    bitmap.set_zero(1);
    bitmap.set_zero(2);
    assert_eq!(bitmap.value, 1);
}

#[test]
fn bitmap_test_set_one() {
    let mut bitmap = BitMap::new(5);

    bitmap.set_one(1);
    assert_eq!(bitmap.value, 7);

    bitmap.set_one(1);
    bitmap.set_one(2);
    assert_eq!(bitmap.value, 7);
}

#[test]
fn bitmap_test_get_ones() {
    let bitmap = BitMap::new(5);

    let ones = bitmap.get_ones();

    assert_eq!(ones, vec![0, 2]);
}

#[test]
fn bitmap_test_get_zeros() {
    let bitmap = BitMap::new(5);

    let ones = bitmap.get_zeros();
    let expected_result: Vec<u8> = (0..64).filter(|x| ![0, 2].contains(x)).collect();

    assert_eq!(ones, expected_result);
}
