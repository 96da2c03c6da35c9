use rustier_chess::board::Board;
use rustier_chess::utils::zobrist::ZobristHash;
use rustier_chess::utils::zobrist::ZobristHasher;
use rustier_chess::types::piece::Color;
use rustier_chess::types::piece::Pieces;
use rustier_chess::types::square::Square;

#[test]
fn test_zobrist_castling_hash() {
    let board = Board::default();
    let hasher = ZobristHasher::load();

    assert_eq!(
        hasher.hash_castling(&board),
        ZobristHash::new(0x7b3a2dabd781afe9)
    )
}

#[test]
fn test_zobrist_turn_hash() {
    let board = Board::default();
    let hasher = ZobristHasher::load();

    assert_eq!(
        hasher.hash_turn(&board),
        ZobristHash::new(0xf8d626aaaf278509)
    )
}

#[test]
fn test_zobrist_hash_board() {
    let board = Board::default();
    let hasher = ZobristHasher::load();

    assert_eq!(
        hasher.hash_board(&board),
        ZobristHash::new(0xc5d79d196e37d67c)
    )
}

#[test]
fn test_zobrist_hash_everything_1() {
    let board = Board::default();
    let hasher = ZobristHasher::load();

    assert_eq!(
        hasher.hash_everyting(&board),
        ZobristHash::new(0x463b96181691fc9c)
    )
}

#[test]
fn test_zobrist_hash_everything_2() {
    let hasher = ZobristHasher::load();
    let board = Board::from_fen(
        "rnbqkbnr/ppp1pppp/8/3p4/4P3/8/PPPP1PPP/RNBQKBNR w KQkq d6 0 2",
        &hasher,
    )
    .unwrap();

    assert_eq!(
        hasher.hash_everyting(&board),
        ZobristHash::new(0x0756b94461c50fb0)
    )
}

#[test]
fn test_zobrist_hash_everything_3() {
    let hasher = ZobristHasher::load();
    let board = Board::from_fen(
        "rnbqkbnr/ppp1pppp/8/3pP3/8/8/PPPP1PPP/RNBQKBNR b KQkq - 0 2",
        &hasher,
    )
    .unwrap();

    assert_eq!(
        hasher.hash_everyting(&board),
        ZobristHash::new(0x662fafb965db29d4)
    )
}

#[test]
fn test_zobrist_hash_everything_4() {
    let hasher = ZobristHasher::load();
    let board = Board::from_fen(
        "rnbqkbnr/ppp1p1pp/8/3pPp2/8/8/PPPP1PPP/RNBQKBNR w KQkq f6 0 3",
        &hasher,
    )
    .unwrap();

    assert_eq!(
        hasher.hash_everyting(&board),
        ZobristHash::new(0x22a48b5a8e47ff78)
    )
}

#[test]
fn test_zobrist_hash_everything_5() {
    let hasher = ZobristHasher::load();
    let board = Board::from_fen(
        "rnbqkbnr/ppp1p1pp/8/3pPp2/8/8/PPPPKPPP/RNBQ1BNR b kq - 0 3",
        &hasher,
    )
    .unwrap();

    assert_eq!(
        hasher.hash_everyting(&board),
        ZobristHash::new(0x652a607ca3f242c1)
    )
}

#[test]
fn test_zobrist_hash_everything_6() {
    let hasher = ZobristHasher::load();
    let board = Board::from_fen(
        "rnbq1bnr/ppp1pkpp/8/3pPp2/8/8/PPPPKPPP/RNBQ1BNR w - - 0 4",
        &hasher,
    )
    .unwrap();

    assert_eq!(
        hasher.hash_everyting(&board),
        ZobristHash::new(0x00fdd303c946bdd9)
    )
}

#[test]
fn test_zobrist_hash_everything_8() {
    let hasher = ZobristHasher::load();
    let board = Board::from_fen(
        "rnbqkbnr/p1pppppp/8/8/PpP4P/8/1P1PPPP1/RNBQKBNR b KQkq c3 0 3",
        &hasher,
    )
    .unwrap();

    assert_eq!(
        hasher.hash_everyting(&board),
        ZobristHash::new(0x3c8123ea7b067637)
    )
}

#[test]
fn test_zobrist_hash_everything_9() {
    let hasher = ZobristHasher::load();
    let board = Board::from_fen(
        "rnbqkbnr/p1pppppp/8/8/P6P/R1p5/1P1PPPP1/1NBQKBNR b Kkq - 0 4",
        &hasher,
    )
    .unwrap();

    assert_eq!(
        hasher.hash_everyting(&board),
        ZobristHash::new(0x5c3f9b829b279560)
    )
}

#[test]
fn test_zobrist_single_keys() {
    let hasher = ZobristHasher::load();
    assert_eq!(hasher.hash_castling_white_short().get_value(), 0x31d71dce64b2c310);
    assert_eq!(hasher.hash_castling_white_long().get_value(), 0xf165b587df898190);
    assert_eq!(hasher.hash_castling_black_short().get_value(), 0xa57e6339dd2cf3a0);
    assert_eq!(hasher.hash_castling_black_long().get_value(), 0x1ef6e6dbb1961ec9);
    assert_eq!(hasher.hash_castling_color(Color::WHITE).get_value(), 0xc0b2a849bb3b4280);
    assert_eq!(hasher.hash_castling_color(Color::BLACK).get_value(), 0xbb8885e26cbaed69);
    assert_eq!(hasher.turn_hash().get_value(), 0xf8d626aaaf278509);
    assert_eq!(
        hasher.hash_piece_at_square(&Pieces::PAWN, &Color::WHITE, &Square::new(8)).get_value(),
        0x14acbaf4777d5776
    );
    assert_eq!(
        hasher.hash_piece_at_square(&Pieces::KING, &Color::BLACK, &Square::new(60)).get_value(),
        0x13ae978d09fe5557
    );
    assert_eq!(
        hasher.hash_piece_at_square(&Pieces::QUEEN, &Color::WHITE, &Square::new(3)).get_value(),
        0x8dd9bdfd96b9f63
    );
    assert_eq!(
        (ZobristHash::new(0b1100) ^ ZobristHash::new(0b1010)).get_value(),
        0b0110
    );
    assert_eq!(ZobristHash::zero().get_value(), 0);
}

#[test]
fn test_zobrist_en_passant_counts_only_when_a_pawn_can_take() {
    let hasher = ZobristHasher::load();
    // a white pawn stands beside the pawn that passed: the file counts
    let board = Board::from_fen(
        "rnbqkbnr/ppp1pppp/8/3pP3/8/8/PPPP1PPP/RNBQKBNR w KQkq d6 0 2",
        &hasher,
    )
    .unwrap();
    assert_eq!(hasher.hash_en_passant(&board, Color::WHITE).get_value(), 0x1c99ded33cb890a1);
    // no black pawn stands beside e4: the file does not count
    let board = Board::from_fen(
        "rnbqkbnr/pppppppp/8/8/4P3/8/PPPP1PPP/RNBQKBNR b KQkq e3 0 1",
        &hasher,
    )
    .unwrap();
    assert_eq!(hasher.hash_en_passant(&board, Color::BLACK).get_value(), 0);
    assert_eq!(hasher.hash_turn(&board).get_value(), 0);
}
