use rustier_chess::board::Board;
use rustier_chess::fen::FenError;
use rustier_chess::moves::move_mask_gen::MoveGenMasks;
use rustier_chess::moves::moves_calculation::square_attacked_by;
use rustier_chess::moves::moves_utils::Move;
use rustier_chess::types::piece::Pieces;
use rustier_chess::utils::zobrist::ZobristHasher;

fn check_position(board: &Board, hasher: &ZobristHasher, masks: &MoveGenMasks) {
    // the board of all pieces is the union of the colours
    assert_eq!(
        board.all_pieces.0,
        board.colors[0].0 | board.colors[1].0
    );
    for color in 0..2 {
        // the kinds of a colour share no square and make up the colour
        let mut union = 0u64;
        let mut count = 0;
        for kind in 0..6 {
            assert_eq!(union & board.pieces[color][kind].0, 0);
            union |= board.pieces[color][kind].0;
            count += board.pieces[color][kind].0.count_ones();
        }
        assert_eq!(union, board.colors[color].0);
        assert_eq!(count, board.colors[color].0.count_ones());
        // one king each
        assert_eq!(board.pieces[color][Pieces::KING].0.count_ones(), 1);
    }
    // the key is the key of the position
    assert_eq!(board.zobrist, hasher.hash_everyting(board));
    // the side not to move is not in check
    let other = board.state.opponent;
    let their_king = board.pieces[other][Pieces::KING].get_one();
    assert!(!square_attacked_by(&their_king, board, masks, board.state.turn));
}

fn walk(board: &mut Board, hasher: &ZobristHasher, masks: &MoveGenMasks, depth: u8) {
    check_position(board, hasher, masks);
    if depth == 0 {
        return;
    }
    let colors = board.colors;
    let pieces = board.pieces;
    let all_pieces = board.all_pieces;
    let castling = board.state.castling;
    let en_passant = board.state.en_passant;
    let half_moves = board.state.half_moves;
    let full_moves = board.state.full_moves;
    let turn = board.state.turn;
    let zobrist = board.zobrist;
    let history = board.position_history.clone();
    let fen = board.get_fen();
    for legal_move in board.get_legal_moves(masks, hasher) {
        let helper = board.make_move(&legal_move, hasher);
        walk(board, hasher, masks, depth - 1);
        board.unmake_move(helper);
        // taking the move back restores the position bit for bit
        assert_eq!(board.colors, colors);
        assert_eq!(board.pieces, pieces);
        assert_eq!(board.all_pieces, all_pieces);
        assert_eq!(board.state.castling, castling);
        assert_eq!(board.state.en_passant, en_passant);
        assert_eq!(board.state.half_moves, half_moves);
        assert_eq!(board.state.full_moves, full_moves);
        assert_eq!(board.state.turn, turn);
        assert_eq!(board.zobrist, zobrist);
        assert_eq!(board.position_history, history);
        assert_eq!(board.get_fen(), fen);
    }
}

#[test]
fn test_invariants_hold_along_every_line() {
    let hasher = ZobristHasher::load();
    let masks = MoveGenMasks::load().unwrap();
    let fens = [
        "rnbqkbnr/pppppppp/8/8/8/8/PPPPPPPP/RNBQKBNR w KQkq - 0 1",
        "r3k2r/p1ppqpb1/bn2pnp1/3PN3/1p2P3/2N2Q1p/PPPBBPPP/R3K2R w KQkq - 0 1",
        "8/2p5/3p4/KP5r/1R3p1k/8/4P1P1/8 w - - 0 1",
        "r3k2r/Pppp1ppp/1b3nbN/nP6/BBP1P3/q4N2/Pp1P2PP/R2Q1RK1 w kq - 0 1",
        "rnbq1k1r/pp1Pbppp/2p5/8/2B5/8/PPP1NnPP/RNBQK2R w KQ - 1 8",
    ];
    for fen in fens {
        let mut board = Board::from_fen(fen, &hasher).unwrap();
        walk(&mut board, &hasher, &masks, 2);
    }
}

#[test]
fn test_fen_round_trips_along_a_game() {
    let hasher = ZobristHasher::load();
    let masks = MoveGenMasks::load().unwrap();
    let mut board = Board::new(&hasher);
    let line = [
        "e2e4", "c7c5", "g1f3", "d7d6", "d2d4", "c5d4", "f3d4", "g8f6", "b1c3", "a7a6", "f1e2",
        "e7e5", "d4b3", "f8e7", "e1g1", "e8g8",
    ];
    for text in line {
        let the_move = Move::from_long_str(text, &board).unwrap();
        assert!(board.check_and_make_move(&the_move, &masks, &hasher));
        let fen = board.get_fen();
        let read = Board::from_fen(&fen, &hasher).unwrap();
        assert_eq!(read.colors, board.colors);
        assert_eq!(read.pieces, board.pieces);
        assert_eq!(read.all_pieces, board.all_pieces);
        assert_eq!(read.state.castling, board.state.castling);
        assert_eq!(read.state.en_passant, board.state.en_passant);
        assert_eq!(read.state.half_moves, board.state.half_moves);
        assert_eq!(read.state.full_moves, board.state.full_moves);
        assert_eq!(read.state.turn, board.state.turn);
        assert_eq!(read.state.opponent, board.state.opponent);
        assert_eq!(read.zobrist, board.zobrist);
        assert_eq!(read.get_fen(), fen);
    }
    assert_eq!(
        board.get_fen(),
        "rnbq1rk1/1p2bppp/p2p1n2/4p3/4P3/1NN5/PPP1BPPP/R1BQ1RK1 w - - 4 9"
    );
}

#[test]
fn test_make_move_follows_the_rules() {
    let hasher = ZobristHasher::load();
    let masks = MoveGenMasks::load().unwrap();
    // a double push leaves an en-passant target
    let mut board = Board::new(&hasher);
    let the_move = Move::from_long_str("e2e4", &board).unwrap();
    assert!(board.check_and_make_move(&the_move, &masks, &hasher));
    assert_eq!(
        board.get_fen(),
        "rnbqkbnr/pppppppp/8/8/4P3/8/PPPP1PPP/RNBQKBNR b KQkq e3 0 1"
    );
    // the Polyglot key of this position does not count the target, since no
    // black pawn can take there
    assert_eq!(board.zobrist.0, 0x823c9b50fd114196);
    // en passant takes the pawn that passed
    let mut board = Board::from_fen(
        "rnbqkbnr/ppp1p1pp/8/3pPp2/8/8/PPPP1PPP/RNBQKBNR w KQkq f6 0 3",
        &hasher,
    )
    .unwrap();
    let the_move = Move::from_long_str("e5f6", &board).unwrap();
    assert!(board.check_and_make_move(&the_move, &masks, &hasher));
    assert_eq!(
        board.get_fen(),
        "rnbqkbnr/ppp1p1pp/5P2/3p4/8/8/PPPP1PPP/RNBQKBNR b KQkq - 0 3"
    );
    // castling short and long moves the rook and gives up both rights
    let mut board =
        Board::from_fen("r3k2r/8/8/8/8/8/8/R3K2R w KQkq - 4 10", &hasher).unwrap();
    let the_move = Move::from_long_str("e1g1", &board).unwrap();
    assert!(board.check_and_make_move(&the_move, &masks, &hasher));
    assert_eq!(board.get_fen(), "r3k2r/8/8/8/8/8/8/R4RK1 b kq - 5 10");
    let the_move = Move::from_long_str("e8c8", &board).unwrap();
    assert!(board.check_and_make_move(&the_move, &masks, &hasher));
    assert_eq!(board.get_fen(), "2kr3r/8/8/8/8/8/8/R4RK1 w - - 6 11");
    // a rook that leaves its corner, or is taken there, costs the right
    let mut board =
        Board::from_fen("r3k2r/8/8/8/8/8/8/R3K2R w KQkq - 0 1", &hasher).unwrap();
    let the_move = Move::from_long_str("a1a8", &board).unwrap();
    assert!(board.check_and_make_move(&the_move, &masks, &hasher));
    assert_eq!(board.get_fen(), "R3k2r/8/8/8/8/8/8/4K2R b Kk - 0 1");
    // promotion, with capture
    let mut board = Board::from_fen("1n2k3/P7/8/8/8/8/8/4K3 w - - 3 20", &hasher).unwrap();
    let the_move = Move::from_long_str("a7b8n", &board).unwrap();
    assert!(board.check_and_make_move(&the_move, &masks, &hasher));
    assert_eq!(board.get_fen(), "1N2k3/8/8/8/8/8/8/4K3 b - - 0 20");
    assert_eq!(board.zobrist, hasher.hash_everyting(&board));
}

#[test]
fn test_illegal_moves_are_not_made() {
    let hasher = ZobristHasher::load();
    let masks = MoveGenMasks::load().unwrap();
    let mut board = Board::new(&hasher);
    let before = board.get_fen();
    // a rook cannot jump, a pawn cannot go three squares, a pinned piece
    // stays
    for text in ["a1a3", "e2e5", "e1e2"] {
        let the_move = Move::from_long_str(text, &board).unwrap();
        assert!(!board.check_and_make_move(&the_move, &masks, &hasher));
        assert_eq!(board.get_fen(), before);
    }
    assert!(Move::from_long_str("e3e4", &board).is_none());
    assert!(Move::from_long_str("e2", &board).is_none());
    assert!(Move::from_long_str("e2e4x", &board).is_none());
    assert!(Move::from_long_str("i2e4", &board).is_none());
    let mut pinned = Board::from_fen("4k3/8/8/8/8/4r3/4N3/4K3 w - - 0 1", &hasher).unwrap();
    let the_move = Move::from_long_str("e2c3", &pinned).unwrap();
    assert!(!pinned.check_and_make_move(&the_move, &masks, &hasher));
    // castling through an attacked square is not legal
    let mut through = Board::from_fen("4k3/8/8/8/8/8/5r2/R3K2R w KQ - 0 1", &hasher).unwrap();
    let short = Move::from_long_str("e1g1", &through).unwrap();
    assert!(!through.check_and_make_move(&short, &masks, &hasher));
    let long = Move::from_long_str("e1c1", &through).unwrap();
    assert!(through.check_and_make_move(&long, &masks, &hasher));
}

#[test]
fn test_fen_errors() {
    let hasher = ZobristHasher::load();
    let error = |fen: &str| Board::from_fen(fen, &hasher).err();
    assert_eq!(error("8/8/8/8/8/8/8/8 w - - 0"), Some(FenError::FieldCount));
    assert_eq!(
        error("rnbqkbnr/pppppppp/8/8/8/8/PPPPPPPP/RNBQKBNR  w KQkq - 0 1"),
        Some(FenError::FieldCount)
    );
    assert_eq!(error("8/8/8/8/8/8/8 w - - 0 1"), Some(FenError::Placement));
    assert_eq!(error("8/8/8/8/8/8/8/7 w - - 0 1"), Some(FenError::Placement));
    assert_eq!(error("8/8/8/8/8/8/8/9 w - - 0 1"), Some(FenError::Placement));
    assert_eq!(error("8/8/8/8/8/8/8/4x3 w - - 0 1"), Some(FenError::Placement));
    assert_eq!(error("8/8/8/8/8/8/8/ppppppppp w - - 0 1"), Some(FenError::Placement));
    assert_eq!(error("4k3/8/8/8/8/8/8/4K3 x - - 0 1"), Some(FenError::SideToMove));
    assert_eq!(error("4k3/8/8/8/8/8/8/4K3 w KX - 0 1"), Some(FenError::Castling));
    assert_eq!(error("4k3/8/8/8/8/8/8/4K3 w - e9 0 1"), Some(FenError::EnPassant));
    assert_eq!(error("4k3/8/8/8/8/8/8/4K3 w - - x 1"), Some(FenError::HalfMoves));
    assert_eq!(error("4k3/8/8/8/8/8/8/4K3 w - - 256 1"), Some(FenError::HalfMoves));
    assert_eq!(error("4k3/8/8/8/8/8/8/4K3 w - - 0 65536"), Some(FenError::FullMoves));
    assert_eq!(error("4k3/8/8/8/8/8/8/4K3 w - - 0 -1"), Some(FenError::FullMoves));
    assert!(error("4k3/8/8/8/8/8/8/4K3 w - - 255 65535").is_none());
}

#[test]
fn test_fields_that_do_not_fit_together_are_read_and_told() {
    let hasher = ZobristHasher::load();
    // a right without its rook, a target that no pawn passed, a pawn on the
    // last rank
    for text in [
        "4k3/8/8/8/8/8/8/4K3 w K - 0 1",
        "4k3/8/8/8/8/8/8/4K3 w - e6 0 1",
        "P3k3/8/8/8/8/8/8/4K3 w - - 0 1",
    ] {
        let board = Board::from_fen(text, &hasher).unwrap();
        assert!(!board.is_well_formed(), "{}", text);
        assert_eq!(board.position_history.len(), 1);
        assert_eq!(board.position_history[0], board.zobrist);
        assert_eq!(board.zobrist, hasher.hash_everyting(&board));
    }
    for text in [
        "4k3/8/8/8/8/8/8/4K2R w K - 0 1",
        "4k3/8/8/4p3/8/8/8/4K3 w - e6 0 1",
        "4k3/P7/8/8/8/8/8/4K3 w - - 0 1",
        "rnbqkbnr/pppppppp/8/8/8/8/PPPPPPPP/RNBQKBNR w KQkq - 0 1",
    ] {
        let board = Board::from_fen(text, &hasher).unwrap();
        assert!(board.is_well_formed(), "{}", text);
    }
}

#[test]
fn test_captures_hold_the_capture_in_passing() {
    let hasher = ZobristHasher::load();
    let masks = MoveGenMasks::load().unwrap();
    let mut board =
        Board::from_fen("4k3/8/8/3pP3/8/8/8/4K3 w - d6 0 2", &hasher).unwrap();
    let captures = board.get_capture_moves(&masks, &hasher);
    let names: Vec<String> = captures.iter().map(|m| m.to_long_string()).collect();
    assert_eq!(names, vec!["e5d6".to_string()]);
    // a step onto the target by another piece takes nothing
    let mut board =
        Board::from_fen("4k3/8/8/3pP3/2B5/8/8/4K3 w - d6 0 2", &hasher).unwrap();
    let captures = board.get_capture_moves(&masks, &hasher);
    let names: Vec<String> = captures.iter().map(|m| m.to_long_string()).collect();
    assert_eq!(names, vec!["c4d5".to_string(), "e5d6".to_string()]);
    // every capture is a legal move, in the order of the legal moves
    let legal = board.get_legal_moves(&masks, &hasher);
    let mut at = 0;
    for capture in captures.iter() {
        while legal[at] != *capture {
            at += 1;
        }
    }
}

#[test]
fn test_fen_is_read_without_the_space_around_it() {
    let hasher = ZobristHasher::load();
    let board = Board::from_fen("  4k3/8/8/8/8/8/8/4K3 w - - 0 1\n", &hasher).unwrap();
    assert_eq!(board.get_fen(), "4k3/8/8/8/8/8/8/4K3 w - - 0 1");
    let board =
        Board::from_fen("\u{3000}\t\u{a0}4k3/8/8/8/8/8/8/4K3 w - - 0 1\u{2028}\r", &hasher).unwrap();
    assert_eq!(board.get_fen(), "4k3/8/8/8/8/8/8/4K3 w - - 0 1");
    // white space within the text parts no fields, but for the single space
    assert_eq!(
        Board::from_fen("4k3/8/8/8/8/8/8/4K3\tw - - 0 1", &hasher).err(),
        Some(FenError::FieldCount)
    );
    assert_eq!(
        Board::from_fen("4k3/8/8/8/8/8/8/4K3  w - - 0 1", &hasher).err(),
        Some(FenError::FieldCount)
    );
    // a space of no width is no white space and stays
    assert!(Board::from_fen("\u{200b}4k3/8/8/8/8/8/8/4K3 w - - 0 1", &hasher).is_err());
}
