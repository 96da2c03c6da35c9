use rustier_chess::magic::magic_generation::verify_magic;
use rustier_chess::magic::magic_generation::IncompatibleMagic;
use rustier_chess::magic::magic_generation::Magic;
use rustier_chess::magic::magics::bishop_magic;
use rustier_chess::magic::magics::rook_magic;
use rustier_chess::moves::move_mask_gen::create_blocker_boards;
use rustier_chess::moves::move_mask_gen::generate_bishop_moves;
use rustier_chess::moves::move_mask_gen::generate_king_moves;
use rustier_chess::moves::move_mask_gen::generate_knight_moves;
use rustier_chess::moves::move_mask_gen::generate_magic_moves;
use rustier_chess::moves::move_mask_gen::generate_relevant_blockers;
use rustier_chess::moves::move_mask_gen::generate_rook_moves;
use rustier_chess::moves::move_mask_gen::generate_slider_moves_from_blockers;
use rustier_chess::moves::move_mask_gen::MoveGenMasks;
use rustier_chess::types::bitboard::BitBoard;
use rustier_chess::types::piece::Pieces;
use rustier_chess::types::square::Square;

#[test]
fn test_leaper_tables() {
    assert_eq!(generate_king_moves(&Square::new(0)).0, 0x302);
    assert_eq!(generate_king_moves(&Square::new(63)).0, 0x40c0000000000000);
    assert_eq!(generate_king_moves(&Square::new(28)).0, 0x3828380000);
    assert_eq!(generate_knight_moves(&Square::new(0)).0, 0x20400);
    assert_eq!(generate_knight_moves(&Square::new(63)).0, 0x20400000000000);
    assert_eq!(generate_knight_moves(&Square::new(28)).0, 0x284400442800);
}

#[test]
fn test_relevant_blockers_leave_the_edges_out() {
    assert_eq!(
        generate_relevant_blockers(&Square::new(0), Pieces::ROOK).0,
        0x101010101017e
    );
    assert_eq!(
        generate_relevant_blockers(&Square::new(0), Pieces::BISHOP).0,
        0x40201008040200
    );
    assert_eq!(
        generate_relevant_blockers(&Square::new(27), Pieces::ROOK).0,
        0x8080876080800
    );
    for i in 0..64u8 {
        let square = Square::new(i);
        assert_eq!(
            generate_relevant_blockers(&square, Pieces::ROOK),
            rook_magic(&square).mask
        );
        assert_eq!(
            generate_relevant_blockers(&square, Pieces::BISHOP),
            bishop_magic(&square).mask
        );
    }
}

#[test]
fn test_slider_attacks_stop_at_blockers() {
    let square = Square::new(27);
    let blockers = [BitBoard::new(0), BitBoard::new((1 << 29) | (1 << 43) | (1 << 45))];
    let rook = generate_slider_moves_from_blockers(&square, &blockers, Pieces::ROOK);
    assert_eq!(rook[0].0, 0x8080808f7080808);
    assert_eq!(rook[1].0, 0x80837080808);
    let bishop = generate_slider_moves_from_blockers(&square, &blockers, Pieces::BISHOP);
    assert_eq!(bishop[0].0, 0x8041221400142241);
    assert_eq!(bishop[1].0, 0x1221400142241);
}

#[test]
fn test_blocker_boards_are_all_subsets() {
    let mask = BitBoard::new(0b1011);
    let boards = create_blocker_boards(&mask);
    let values: Vec<u64> = boards.iter().map(|b| b.0).collect();
    assert_eq!(values, vec![0, 1, 2, 3, 8, 9, 10, 11]);
}

#[test]
fn test_magic_tables_answer_every_occupancy() {
    let masks = MoveGenMasks::load().unwrap();
    assert_eq!(masks.king_moves.len(), 64);
    assert_eq!(masks.rook_moves.len(), 64);
    let mut seed = 0x9E3779B97F4A7C15u64;
    for i in 0..64u8 {
        let square = Square::new(i);
        let rook = rook_magic(&square);
        let bishop = bishop_magic(&square);
        assert_eq!(masks.rook_moves[i as usize].len(), 1 << (64 - rook.shift));
        assert_eq!(masks.bishop_moves[i as usize].len(), 1 << (64 - bishop.shift));
        for _ in 0..200 {
            seed ^= seed << 13;
            seed ^= seed >> 7;
            seed ^= seed << 17;
            let occupancy = BitBoard::new(seed & (seed >> 11));
            let by_walk = generate_slider_moves_from_blockers(&square, &[occupancy], Pieces::ROOK);
            assert_eq!(
                masks.rook_moves[i as usize][rook.get_index(occupancy)],
                by_walk[0]
            );
            let by_walk =
                generate_slider_moves_from_blockers(&square, &[occupancy], Pieces::BISHOP);
            assert_eq!(
                masks.bishop_moves[i as usize][bishop.get_index(occupancy)],
                by_walk[0]
            );
        }
    }
    assert!(generate_magic_moves(&Square::new(5), Pieces::ROOK).is_some());
}

#[test]
fn test_magic_index() {
    let magic = Magic::new(BitBoard::new(0x101010101017e), 0x108000c00080aa10, 52);
    assert_eq!(magic.get_index(BitBoard::new(0)), 0);
    let occupancy = 0x0000000000000102u64;
    let expected = ((occupancy & 0x101010101017e).wrapping_mul(0x108000c00080aa10) >> 52) as usize;
    assert_eq!(magic.get_index(BitBoard::new(occupancy)), expected);
    assert_eq!(magic.table_size(), 4096);
}

#[test]
fn test_verify_magic() {
    let square = Square::new(0);
    let (mask, moves) = generate_rook_moves(&square);
    assert_eq!(moves.len(), 4096);
    assert_eq!(verify_magic(&moves, &rook_magic(&square)), Ok(()));
    // a multiplier of nothing sends every board to slot 0
    assert_eq!(
        verify_magic(&moves, &Magic::new(mask, 0, 52)),
        Err(IncompatibleMagic)
    );
    let (mask, moves) = generate_bishop_moves(&Square::new(27));
    assert_eq!(mask.0, 0x40221400142200);
    assert_eq!(moves.len(), 512);
    assert_eq!(verify_magic(&moves, &bishop_magic(&Square::new(27))), Ok(()));
}

#[test]
fn test_magic_as_text() {
    let magic = Magic::new(BitBoard::new(0x101010101017e), 0x108000c00080aa10, 52);
    assert_eq!(
        magic.to_string(),
        "Magic: mask=0x101010101017e, magic=0x108000c00080aa10, shift=52\n"
    );
    assert_eq!(
        Magic::new(BitBoard::new(0), 0, 0).to_string(),
        "Magic: mask=0x0, magic=0x0, shift=0\n"
    );
}
