use std::str::FromStr;

use rustier_chess::board::Board;
use rustier_chess::moves::move_mask_gen::generate_bishop_move_mask;
use rustier_chess::moves::move_mask_gen::generate_rook_moves_mask;
use rustier_chess::moves::move_mask_gen::MoveGenMasks;
use rustier_chess::moves::moves_calculation::get_all_moves;
use rustier_chess::moves::moves_calculation::get_castling_moves;
use rustier_chess::moves::moves_calculation::get_pawn_moves;
use rustier_chess::moves::moves_calculation::get_king_moves;
use rustier_chess::moves::moves_calculation::get_knight_moves;
use rustier_chess::moves::moves_calculation::get_slidy_boii_moves;
use rustier_chess::moves::moves_calculation::get_bishop_move_mask;
use rustier_chess::moves::moves_calculation::get_rook_move_mask;
use rustier_chess::moves::moves_calculation::is_square_in_check;
use rustier_chess::moves::moves_utils::Move;
use rustier_chess::types::piece::Color;
use rustier_chess::types::piece::Pieces;
use rustier_chess::types::square::Square;
use rustier_chess::utils::zobrist::ZobristHasher;

#[test]
fn moves_calculation_test_get_white_pawn_moves() {
    let hasher = ZobristHasher::load();
    let square = Square::new(8);
    let board = Board::new(&hasher);

    let moves = get_pawn_moves(square, &board);

    assert_eq!(
        moves[0],
        Move::from_origin_and_destination(&Square::new(16), &square, Pieces::PAWN)
    );
    let mut new_move = Move::from_origin_and_destination(&Square::new(24), &square, Pieces::PAWN);
    new_move.set_en_passant();
    assert_eq!(moves[1], new_move);
}

#[test]
fn moves_calculation_test_get_black_pawn_moves() {
    let hasher = ZobristHasher::load();
    let square = Square::from_str("b7").unwrap();
    let mut board = Board::new(&hasher);
    board.state.change_turn();

    let moves = get_pawn_moves(square, &board);

    assert_eq!(
        moves[0],
        Move::from_origin_and_destination(&Square::from_str("b6").unwrap(), &square, Pieces::PAWN)
    );
    let mut new_move = Move::from_origin_and_destination(
        &Square::from_str("b5").unwrap(),
        &square,
        Pieces::PAWN,
    );
    new_move.set_en_passant();
    assert_eq!(moves[1], new_move);
}

#[test]
fn test_is_square_in_check() {
    let hasher = ZobristHasher::load();
    let board = Board::from_fen(
        "r1bqkbnr/pp1p1ppp/2n1p3/2p5/4P3/2N2N2/PPPP1PPP/R1BQKB1R w KQkq - 0 4",
        &hasher,
    )
    .unwrap();
    let move_gen_masks = MoveGenMasks::load().unwrap();

    let in_check_positions = ["a5", "d5", "e5", "f5", "e7", "d6", "f6", "d5", "h4"];

    assert!(in_check_positions.into_iter().all(|square_str| {
        let square = Square::from_str(square_str).unwrap();
        is_square_in_check(&square, &board, &move_gen_masks)
    }));

    let not_in_check_positions = ["a3", "g4", "e4", "h5"];

    assert!(!not_in_check_positions.into_iter().any(|square_str| {
        let square = Square::from_str(square_str).unwrap();
        is_square_in_check(&square, &board, &move_gen_masks)
    }));
}

#[test]
fn test_get_castling_moves_black() {
    let hasher = ZobristHasher::load();
    let board = Board::from_fen(
        "r3k2r/pbpq1ppp/1pnp1n2/2b1p3/4P3/1PNB1N2/PBPPQPPP/R3K2R b KQkq - 3 9",
        &hasher,
    )
    .unwrap();
    let move_gen_masks = MoveGenMasks::load().unwrap();
    let king_square = board.pieces[Color::BLACK][Pieces::KING].get_one();

    let moves = get_castling_moves(&king_square, &board, &move_gen_masks);
    assert_eq!(moves.len(), 2);
    let short = moves.first().unwrap();
    assert_eq!(short.get_destination().to_string(), "g8");
    assert_eq!(short.get_origin().to_string(), "e8");
    assert!(short.get_special_move() == Some(false));

    let long = moves.get(1).unwrap();
    assert_eq!(long.get_destination().to_string(), "c8");
    assert_eq!(long.get_origin().to_string(), "e8");
    assert!(short.get_special_move() == Some(false));
}

#[test]
fn test_get_castling_moves_white() {
    let hasher = ZobristHasher::load();
    let board = Board::from_fen(
        "r1b1k2r/pppq1ppp/3p1n2/2b1p3/3nP3/1PNB1N2/PBPPQPPP/R3K2R w KQkq - 6 8",
        &hasher,
    )
    .unwrap();
    let move_gen_masks = MoveGenMasks::load().unwrap();
    let king_square = board.pieces[Color::WHITE][Pieces::KING].get_one();

    let moves = get_castling_moves(&king_square, &board, &move_gen_masks);
    assert_eq!(moves.len(), 2);
    let short = moves.first().unwrap();
    assert_eq!(short.get_destination().to_string(), "g1");
    assert_eq!(short.get_origin().to_string(), "e1");
    assert!(short.get_special_move() == Some(false));

    let long = moves.get(1).unwrap();
    assert_eq!(long.get_destination().to_string(), "c1");
    assert_eq!(long.get_origin().to_string(), "e1");
    assert!(short.get_special_move() == Some(false));
}

#[test]
fn test_get_all_moves() {
    let hasher = ZobristHasher::load();
    let mut board = Board::new(&hasher);
    board.state.change_turn();
    let move_gen_masks = MoveGenMasks::load().unwrap();

    let moves = get_all_moves(&board, &move_gen_masks);
    assert_eq!(moves.len(), 20);
}

#[test]
fn test_generate_bishop_move_mask() {
    let square = Square::new(30);
    assert_eq!(
        generate_bishop_move_mask(&square).as_u64(),
        0x40810a000a01008
    );
}

#[test]
fn test_generate_rook_move_mask() {
    let square = Square::new(30);
    assert_eq!(
        generate_rook_moves_mask(&square).as_u64(),
        0x40404040bf404040
    );
}

fn destinations(moves: &Vec<Move>) -> Vec<u8> {
    moves.iter().map(|m| m.get_destination().as_u8()).collect()
}

#[test]
fn test_piece_moves_in_order() {
    let hasher = ZobristHasher::load();
    let move_gen_masks = MoveGenMasks::load().unwrap();
    let board = Board::new(&hasher);
    let knight = get_knight_moves(&Square::new(1), &move_gen_masks, &board);
    assert_eq!(destinations(&knight), vec![16, 18]);
    assert!(knight.iter().all(|m| m.get_origin() == Square::new(1)
        && m.get_special_move().is_none()
        && m.get_promotion_piece().is_none()));

    let board = Board::from_fen("4k3/8/8/8/8/8/8/R3K2R w KQ - 0 1", &hasher).unwrap();
    let king = get_king_moves(&Square::new(4), &move_gen_masks, &board);
    assert_eq!(destinations(&king), vec![3, 5, 11, 12, 13, 6, 2]);
    assert_eq!(king[4].get_special_move(), None);
    assert_eq!(king[5].get_special_move(), Some(false));
    assert_eq!(king[6].get_special_move(), Some(false));
    let rook = get_slidy_boii_moves(&Square::new(0), &board, &move_gen_masks, Pieces::ROOK);
    assert_eq!(destinations(&rook), vec![1, 2, 3, 8, 16, 24, 32, 40, 48, 56]);
    assert_eq!(
        get_rook_move_mask(&Square::new(7), &board, &move_gen_masks).as_u64(),
        0x8080808080808060
    );

    let board = Board::from_fen("4k3/8/8/3p4/8/1Q6/8/4K3 w - - 0 1", &hasher).unwrap();
    let queen = get_slidy_boii_moves(&Square::new(17), &board, &move_gen_masks, Pieces::QUEEN);
    assert_eq!(
        destinations(&queen),
        vec![1, 3, 8, 9, 10, 16, 18, 19, 20, 21, 22, 23, 24, 25, 26, 33, 35, 41, 49, 57]
    );
    assert_eq!(
        get_bishop_move_mask(&Square::new(17), &board, &move_gen_masks).as_u64(),
        (1 << 8) | (1 << 10) | (1 << 3) | (1 << 24) | (1 << 26) | (1 << 35)
    );
}

#[test]
fn test_pawn_moves_in_order() {
    let hasher = ZobristHasher::load();
    // a promotion straight ahead and one by capture, four pieces each
    let board = Board::from_fen("1n2k3/P7/8/8/8/8/8/4K3 w - - 0 1", &hasher).unwrap();
    let moves = get_pawn_moves(Square::new(48), &board);
    assert_eq!(destinations(&moves), vec![56, 56, 56, 56, 57, 57, 57, 57]);
    let kinds: Vec<Option<usize>> = moves.iter().map(|m| m.get_promotion_piece()).collect();
    let order = vec![
        Some(Pieces::QUEEN),
        Some(Pieces::KNIGHT),
        Some(Pieces::ROOK),
        Some(Pieces::BISHOP),
    ];
    assert_eq!(kinds[0..4], order[..]);
    assert_eq!(kinds[4..8], order[..]);
    // en passant beside a push, towards the h-file before the a-file
    let board = Board::from_fen(
        "rnbqkbnr/ppp1p1pp/8/3pPp2/8/8/PPPP1PPP/RNBQKBNR w KQkq f6 0 3",
        &hasher,
    )
    .unwrap();
    let moves = get_pawn_moves(Square::new(36), &board);
    assert_eq!(destinations(&moves), vec![44, 45]);
    // a blocked pawn has no push, and the double push needs both squares
    let board = Board::from_fen("4k3/8/8/8/8/n7/PP6/4K3 w - - 0 1", &hasher).unwrap();
    assert_eq!(destinations(&get_pawn_moves(Square::new(8), &board)), Vec::<u8>::new());
    assert_eq!(destinations(&get_pawn_moves(Square::new(9), &board)), vec![17, 25, 16]);
}
