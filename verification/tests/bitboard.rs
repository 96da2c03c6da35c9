use rustier_chess::types::bitboard::BitBoard;
use rustier_chess::types::square::Square;

#[test]
fn bitboard_test_read_bit() {
    let bitboard = BitBoard::new(5);

    assert_eq!(bitboard.read_square(&Square::new(0)), true);
    assert_eq!(bitboard.read_square(&Square::new(1)), false);
    assert_eq!(bitboard.read_square(&Square::new(2)), true);
    assert_eq!(bitboard.read_square(&Square::new(3)), false);
}

#[test]
fn bitboard_test_set_zero() {
    let mut bitboard = BitBoard::new(5);

    bitboard.set_zero(&Square::new(2));
    assert_eq!(bitboard.0, 1);

    bitboard.set_zero(&Square::new(1));
    bitboard.set_zero(&Square::new(2));
    assert_eq!(bitboard.0, 1);
}

#[test]
fn bitboard_test_set_one() {
    let mut bitboard = BitBoard::new(5);

    bitboard.set_one(&Square::new(1));
    assert_eq!(bitboard.0, 7);

    bitboard.set_one(&Square::new(1));
    bitboard.set_one(&Square::new(2));
    assert_eq!(bitboard.0, 7);
}

#[test]
fn bitboard_test_get_ones() {
    let bitboard = BitBoard::new(5);

    let ones = bitboard.get_ones();

    assert_eq!(ones, vec![Square::new(0), Square::new(2)]);
}

#[test]
fn bitboard_test_get_zeros() {
    let bitboard = BitBoard::new(5);

    let ones = bitboard.get_zeros();
    let expected_result: Vec<Square> = (0..64)
        .filter(|x| ![0, 2].contains(x))
        .map(|x| Square::new(x))
        .collect();

    assert_eq!(ones, expected_result);
}
