use rustier_chess::board::Board;
use rustier_chess::moves::move_mask_gen::MoveGenMasks;
use rustier_chess::perft::play_game;
use rustier_chess::perft::play_game_checked;
use rustier_chess::utils::zobrist::ZobristHasher;

#[test]
fn test_position_1_default() {
    let hasher = ZobristHasher::load();
    let move_gen_masks = MoveGenMasks::load().unwrap();
    let mut board = Board::new(&hasher);

    let max_depth = 6;
    let n_moves = play_game(&mut board, &move_gen_masks, &hasher, 1, max_depth);
    assert_eq!(n_moves, 119060324)
}

#[test]
fn test_position_2_kiwipete() {
    let hasher = ZobristHasher::load();
    let move_gen_masks = MoveGenMasks::load().unwrap();
    let mut board = Board::from_fen(
        "r3k2r/p1ppqpb1/bn2pnp1/3PN3/1p2P3/2N2Q1p/PPPBBPPP/R3K2R w KQkq - 0 1",
        &hasher,
    )
    .unwrap();

    let max_depth = 5;
    let n_moves = play_game(&mut board, &move_gen_masks, &hasher, 1, max_depth);
    assert_eq!(n_moves, 193690690);
}

#[test]
fn test_position_3() {
    let hasher = ZobristHasher::load();
    let move_gen_masks = MoveGenMasks::load().unwrap();
    let mut board =
        Board::from_fen("8/2p5/3p4/KP5r/1R3p1k/8/4P1P1/8 w - - 0 1", &hasher).unwrap();

    let max_depth = 7;
    let n_moves = play_game(&mut board, &move_gen_masks, &hasher, 1, max_depth);
    assert_eq!(n_moves, 178633661)
}

#[test]
fn test_poition_4() {
    let hasher = ZobristHasher::load();
    let move_gen_masks = MoveGenMasks::load().unwrap();
    let mut board = Board::from_fen(
        "r3k2r/Pppp1ppp/1b3nbN/nP6/BBP1P3/q4N2/Pp1P2PP/R2Q1RK1 w kq - 0 1",
        &hasher,
    )
    .unwrap();

    let max_depth = 5;
    let n_moves = play_game(&mut board, &move_gen_masks, &hasher, 1, max_depth);

    assert_eq!(n_moves, 15833292)
}

#[test]
fn test_poition_4a() {
    let hasher = ZobristHasher::load();
    let move_gen_masks = MoveGenMasks::load().unwrap();
    let mut board = Board::from_fen(
        "r2q1rk1/pP1p2pp/Q4n2/bbp1p3/Np6/1B3NBn/pPPP1PPP/R3K2R b KQ - 0 1",
        &hasher,
    )
    .unwrap();

    let max_depth = 5;
    let n_moves = play_game(&mut board, &move_gen_masks, &hasher, 1, max_depth);

    assert_eq!(n_moves, 15833292)
}

#[test]
fn test_position_5() {
    let hasher = ZobristHasher::load();
    let move_gen_masks = MoveGenMasks::load().unwrap();
    let mut board = Board::from_fen(
        "rnbq1k1r/pp1Pbppp/2p5/8/2B5/8/PPP1NnPP/RNBQK2R w KQ - 1 8",
        &hasher,
    )
    .unwrap();

    let max_depth = 5;
    let n_moves = play_game(&mut board, &move_gen_masks, &hasher, 1, max_depth);

    assert_eq!(n_moves, 89941194)
}

#[test]
fn test_position_6() {
    let hasher = ZobristHasher::load();
    let move_gen_masks = MoveGenMasks::load().unwrap();
    let mut board = Board::from_fen(
        "r4rk1/1pp1qppp/p1np1n2/2b1p1B1/2B1P1b1/P1NP1N2/1PP1QPPP/R4RK1 w - - 0 10",
        &hasher,
    )
    .unwrap();

    let max_depth = 5;
    let n_moves = play_game(&mut board, &move_gen_masks, &hasher, 1, max_depth);

    assert_eq!(n_moves, 164075551)
}

#[test]
fn test_perft_shallow_counts() {
    let hasher = ZobristHasher::load();
    let move_gen_masks = MoveGenMasks::load().unwrap();
    let mut board = Board::new(&hasher);
    assert_eq!(play_game(&mut board, &move_gen_masks, &hasher, 1, 1), 20);
    assert_eq!(play_game(&mut board, &move_gen_masks, &hasher, 1, 2), 400);
    assert_eq!(play_game(&mut board, &move_gen_masks, &hasher, 1, 3), 8902);
    assert_eq!(play_game(&mut board, &move_gen_masks, &hasher, 1, 4), 197281);
    let mut kiwipete = Board::from_fen(
        "r3k2r/p1ppqpb1/bn2pnp1/3PN3/1p2P3/2N2Q1p/PPPBBPPP/R3K2R w KQkq - 0 1",
        &hasher,
    )
    .unwrap();
    assert_eq!(play_game(&mut kiwipete, &move_gen_masks, &hasher, 1, 1), 48);
    assert_eq!(play_game(&mut kiwipete, &move_gen_masks, &hasher, 1, 2), 2039);
    assert_eq!(play_game(&mut kiwipete, &move_gen_masks, &hasher, 1, 3), 97862);
}

#[test]
fn test_checked_count_is_the_count() {
    let hasher = ZobristHasher::load();
    let move_gen_masks = MoveGenMasks::load().unwrap();
    let mut board = Board::new(&hasher);
    assert_eq!(play_game_checked(&mut board, &move_gen_masks, &hasher, 1, 1), Some(20));
    assert_eq!(play_game_checked(&mut board, &move_gen_masks, &hasher, 1, 3), Some(8902));
    assert_eq!(play_game_checked(&mut board, &move_gen_masks, &hasher, 2, 4), Some(8902));
    assert_eq!(
        board.get_fen(),
        "rnbqkbnr/pppppppp/8/8/8/8/PPPPPPPP/RNBQKBNR w KQkq - 0 1"
    );
    // mate: no line at all
    let mut mated = Board::from_fen("R5k1/5ppp/8/8/8/8/8/4K3 b - - 1 1", &hasher).unwrap();
    assert_eq!(play_game_checked(&mut mated, &move_gen_masks, &hasher, 1, 2), Some(0));
}
