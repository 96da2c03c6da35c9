use std::str::FromStr;

use rustier_chess::bots::transposition::TranspositionEntry;
use rustier_chess::bots::transposition::TranspositionEntryType;
use rustier_chess::bots::transposition::TranspositionTable;
use rustier_chess::moves::moves_utils::Move;
use rustier_chess::types::bitboard::BitBoard;
use rustier_chess::types::piece::Color;
use rustier_chess::types::piece::Piece;
use rustier_chess::types::piece::Pieces;
use rustier_chess::types::square::Square;
use rustier_chess::types::state::Castling;
use rustier_chess::types::state::State;
use rustier_chess::utils::zobrist::ZobristHash;

#[test]
fn test_squares() {
    let square = Square::new(28);
    assert_eq!(square.as_u8(), 28);
    assert_eq!(square.as_u16(), 28);
    assert_eq!(square.as_u64(), 28);
    assert_eq!(square.as_usize(), 28);
    assert_eq!(square.get_rank(), 3);
    assert_eq!(square.get_row(), 3);
    assert_eq!(square.get_file(), 4);
    assert_eq!(square.get_bit_index(), 2);
    assert_eq!(square.add(8), Square::new(36));
    assert_eq!(square.sub(9), Square::new(19));
    assert_eq!(square + 8u8, Square::new(36));
    assert_eq!(square - 8u8, Square::new(20));
    assert_eq!(square + (-7i8), Square::new(21));
    assert_eq!(square.to_string(), "e4");
    assert_eq!(Square::from_str("e4"), Ok(Square::new(28)));
    assert_eq!(Square::from_str("a1"), Ok(Square::new(0)));
    assert_eq!(Square::from_str("h8"), Ok(Square::new(63)));
    assert!(Square::from_str("i1").is_err());
    assert!(Square::from_str("a9").is_err());
    assert!(Square::from_str("a").is_err());
    assert!(Square::from_str("E4").is_err());
}

#[test]
fn test_bitboards() {
    let board = BitBoard::new(0x8100000000000081);
    assert_eq!(board.count(), 4);
    assert_eq!(board.get_one(), Square::new(0));
    assert!(!board.is_empty());
    assert!(BitBoard::zeros().is_empty());
    assert_eq!(BitBoard::zeros_with_one_bit(&Square::new(9)).as_u64(), 0x200);
    let mut rest = board;
    assert_eq!(rest.pop_lsb(), Square::new(0));
    assert_eq!(rest.pop_lsb(), Square::new(7));
    assert_eq!(rest.0, 0x8100000000000000);
    // shifts along the ranks lose what leaves the board and never wrap
    assert_eq!(board.shift_up(1).0, 0x8100);
    assert_eq!(board.shift_down(1).0, 0x0081000000000000);
    assert_eq!(board.shift_left(1).0, 0x4000000000000040);
    assert_eq!(board.shift_right(1).0, 0x0200000000000002);
    assert_eq!(board.shift_right(7).0, 0x8000000000000080);
    assert_eq!((board & BitBoard::new(0xff)).0, 0x81);
    assert_eq!((board | BitBoard::new(0x18)).0, 0x8100000000000099);
    assert_eq!((board ^ BitBoard::new(0x1)).0, 0x8100000000000080);
    assert_eq!((!board).0, 0x7effffffffffff7e);
    assert_eq!((board << 1u8).0, 0x0200000000000102);
    assert_eq!((board >> 1u8).0, 0x4080000000000040);
}

#[test]
fn test_castling_rights() {
    let mut castling = Castling::new();
    assert!(!castling.can_someone_castle());
    castling.set_white_short();
    castling.set_black_long();
    assert_eq!(castling.0, 0b1001);
    assert!(castling.white_short());
    assert!(!castling.white_long());
    assert!(!castling.black_short());
    assert!(castling.black_long());
    assert_eq!(castling.can_castle(Color::WHITE), (true, false));
    assert_eq!(castling.can_castle(Color::BLACK), (false, true));
    assert!(castling.can_color_castle(Color::WHITE));
    castling.remove_white_short();
    assert!(!castling.can_color_castle(Color::WHITE));
    castling.set_white_long();
    castling.set_black_short();
    assert_eq!(castling.0, 0b1110);
    castling.remove_color_castling(Color::BLACK);
    assert_eq!(castling.0, 0b0010);
    castling.remove_white_long();
    assert_eq!(castling, Castling::new());
    let mut all = Castling::default();
    assert_eq!(all.0, 0b1111);
    all.remove_black_short();
    all.remove_black_long();
    assert_eq!(all.0, 0b0011);
    assert!(all.read_bit(1));
    all.set_zero(1);
    all.set_one(3);
    assert_eq!(all.0, 0b1001);
}

#[test]
fn test_state() {
    let mut state = State::default();
    assert_eq!(state.turn, Color::WHITE);
    assert_eq!(state.opponent, Color::BLACK);
    state.change_turn();
    assert_eq!(state.turn, Color::BLACK);
    assert_eq!(state.opponent, Color::WHITE);
    state.increment_half_move();
    state.increase_half_move();
    assert_eq!(state.half_moves, 2);
    state.reset_half_move();
    assert_eq!(state.half_moves, 0);
    state.increment_full_move();
    state.increment_full_move();
    state.restore_full_move();
    assert_eq!(state.full_moves, 1);
    state.set_en_passant(Square::new(20));
    assert_eq!(state.en_passant, Some(Square::new(20)));
    state.remove_castling_rights(1, 1);
    assert_eq!(state.castling.0, 0b0111);
    state.remove_castling_rights(0, 0);
    assert_eq!(state.castling.0, 0b0110);
    state.remove_castling_rights(0, 1);
    assert_eq!(state.castling.0, 0b0100);
    state.remove_castling_rights(0, 1);
    assert_eq!(state.castling.0, 0b0100);
    state.remove_castling_rights(1, 0);
    assert_eq!(state.castling.0, 0b0000);
    assert_eq!(Color::other_color(Color::WHITE), Color::BLACK);
    assert_eq!(Color::other_color(Color::BLACK), Color::WHITE);
}

#[test]
fn test_pieces_and_moves() {
    assert_eq!(Piece::new(Pieces::KNIGHT, Color::WHITE).to_char(), 'N');
    assert_eq!(Piece::new(Pieces::QUEEN, Color::BLACK).to_char(), 'q');
    assert_eq!(Piece::from_char('k'), Some(Piece::new(Pieces::KING, Color::BLACK)));
    assert_eq!(Piece::from_char('x'), None);
    let mut promotion =
        Move::from_origin_and_destination(&Square::new(56), &Square::new(48), Pieces::PAWN);
    assert_eq!(promotion.to_long_string(), "a7a8");
    promotion.set_promotion(Pieces::ROOK);
    assert_eq!(promotion.to_long_string(), "a7a8r");
    assert_eq!(promotion.get_promotion_piece(), Some(Pieces::ROOK));
    assert_eq!(promotion.get_origin(), Square::new(48));
    assert_eq!(promotion.get_destination(), Square::new(56));
    assert_eq!(promotion.get_special_move(), None);
    // moves are the same move when origin, destination and promotion agree
    let mut other =
        Move::from_origin_and_destination(&Square::new(56), &Square::new(48), Pieces::QUEEN);
    assert!(promotion != other);
    other.set_promotion(Pieces::ROOK);
    other.set_castling();
    assert!(promotion == other);
    other.set_promotion(Pieces::QUEEN);
    assert!(promotion != other);
}

#[test]
fn test_transposition_table() {
    let mut table = TranspositionTable::default();
    assert_eq!(table.size, 28);
    let key = ZobristHash::new(28 * 5 + 3);
    assert!(table.get(&key).is_none());
    assert_eq!(table.misses, 1);
    table.insert(TranspositionEntry::new(
        key,
        4,
        TranspositionEntryType::Exact,
        25,
        None,
    ));
    let found = table.get(&key).unwrap();
    assert_eq!(found.score, 25);
    assert_eq!(found.depth, 4);
    assert_eq!(table.hits, 1);
    // a shallower entry does not drive a deeper one out, a deeper one does
    let rival = ZobristHash::new(3);
    table.insert(TranspositionEntry::new(
        rival,
        2,
        TranspositionEntryType::Alpha,
        -7,
        None,
    ));
    assert_eq!(table.get(&key).unwrap().score, 25);
    assert!(table.get(&rival).is_none());
    table.insert(TranspositionEntry::new(
        rival,
        6,
        TranspositionEntryType::Beta,
        -7,
        None,
    ));
    assert!(table.get(&key).is_none());
    assert_eq!(table.get(&rival).unwrap().flag, TranspositionEntryType::Beta);
    table.clear();
    assert!(table.get(&rival).is_none());
    assert_eq!(table.hits, 0);
    assert_eq!(table.misses, 1);
    assert_eq!(table.table.len(), 28);
}

#[test]
fn test_pictures() {
    assert_eq!(Piece::new(Pieces::BISHOP, Color::WHITE).to_string(), "B");
    assert_eq!(Piece::new(Pieces::PAWN, Color::BLACK).to_string(), "p");
    assert_eq!(
        BitBoard::new(0x8000000000000103).to_string(),
        "00000001\n00000000\n00000000\n00000000\n00000000\n00000000\n10000000\n11000000\n"
    );
}
