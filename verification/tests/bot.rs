use std::sync::atomic::AtomicBool;

use rustier_chess::board::Board;
use rustier_chess::bots::bot::add_nodes;
use rustier_chess::bots::bot::pick_move;
use rustier_chess::bots::bot::Bot;
use rustier_chess::bots::bot::CHECKMATE_SCORE;
use rustier_chess::bots::bot::MAX_VALUE;
use rustier_chess::bots::bot::MIN_VALUE;
use rustier_chess::bots::stop::StopToken;
use rustier_chess::bots::time_control::TimeControl;
use rustier_chess::moves::move_mask_gen::MoveGenMasks;
use rustier_chess::moves::moves_utils::Move;
use rustier_chess::types::bitboard::BitBoard;
use rustier_chess::types::piece::Pieces;
use rustier_chess::types::square::Square;
use rustier_chess::utils::zobrist::ZobristHasher;

#[test]
fn test_a() {
    let move_gen_masks = MoveGenMasks::load().unwrap();
    let hasher = ZobristHasher::load();
    let mut board = Board::from_fen("8/5k1K/8/6q1/8/8/8/8 b - - 0 1", &hasher).unwrap();
    let _bot = Bot::default();

    let moves = board.get_legal_moves(&move_gen_masks, &hasher);

    println!("{}", board.position_history.len());
    println!("{}", board.state.half_moves);
    assert_eq!(board.position_history.len(), 1);
    assert_eq!(board.state.half_moves, 0);
    assert!(!moves.is_empty());
}

#[test]
fn test_search_takes_the_hanging_rook() {
    let move_gen_masks = MoveGenMasks::load().unwrap();
    let hasher = ZobristHasher::load();
    let mut board = Board::from_fen("8/8/5K2/5R2/5r2/8/5k2/8 w - - 0 1", &hasher).unwrap();
    let flag = AtomicBool::new(false);
    let mut stop = StopToken::new(&flag);
    let bot = Bot::with_depth(4, TimeControl::max());
    let mut reports = Vec::new();
    let best = bot
        .get_best_move(&mut board, &move_gen_masks, &hasher, &mut stop, &mut reports)
        .unwrap();
    assert_eq!(best.to_long_string(), "f5f4");
    assert_eq!(
        board.get_fen(),
        "8/8/5K2/5R2/5r2/8/5k2/8 w - - 0 1"
    );
}

#[test]
fn test_search_finds_mate_in_one() {
    let move_gen_masks = MoveGenMasks::load().unwrap();
    let hasher = ZobristHasher::load();
    // back-rank mate: Ra8#
    let mut board = Board::from_fen("6k1/5ppp/8/8/8/8/8/R3K3 w - - 0 1", &hasher).unwrap();
    let flag = AtomicBool::new(false);
    let mut stop = StopToken::new(&flag);
    let bot = Bot::with_depth(2, TimeControl::max());
    let (score, best, _) =
        bot.get_best_move_for_depth(2, &mut board, &move_gen_masks, &hasher, &mut stop);
    assert_eq!(best.unwrap().to_long_string(), "a1a8");
    assert!(score >= CHECKMATE_SCORE);
    let mut reports = Vec::new();
    let best = bot
        .get_best_move(&mut board, &move_gen_masks, &hasher, &mut stop, &mut reports)
        .unwrap();
    assert_eq!(best.to_long_string(), "a1a8");
}

#[test]
fn test_search_sees_the_ladder_mate() {
    let move_gen_masks = MoveGenMasks::load().unwrap();
    let hasher = ZobristHasher::load();
    let mut board = Board::from_fen("3R4/8/8/8/8/8/4K3/7k w - - 0 1", &hasher).unwrap();
    let flag = AtomicBool::new(false);
    let mut stop = StopToken::new(&flag);
    let bot = Bot::with_depth(4, TimeControl::max());
    let (score, best, _) =
        bot.get_best_move_for_depth(4, &mut board, &move_gen_masks, &hasher, &mut stop);
    assert!(best.is_some());
    assert!(score >= CHECKMATE_SCORE);
}

#[test]
fn test_search_stops_at_once_when_told() {
    let move_gen_masks = MoveGenMasks::load().unwrap();
    let hasher = ZobristHasher::load();
    let mut board = Board::new(&hasher);
    let flag = AtomicBool::new(true);
    let mut stop = StopToken::new(&flag);
    let bot = Bot::with_depth(200, TimeControl::max());
    let mut reports = Vec::new();
    let best = bot.get_best_move(&mut board, &move_gen_masks, &hasher, &mut stop, &mut reports);
    assert!(best.is_none());
    assert!(stop.seen);
    assert!(reports.is_empty());
    assert_eq!(
        board.get_fen(),
        "rnbqkbnr/pppppppp/8/8/8/8/PPPPPPPP/RNBQKBNR w KQkq - 0 1"
    );
}

#[test]
fn test_evaluation_of_the_start_position() {
    let move_gen_masks = MoveGenMasks::load().unwrap();
    let hasher = ZobristHasher::load();
    let mut board = Board::new(&hasher);
    let bot = Bot::default();
    // the pieces balance; twenty moves are left
    assert_eq!(bot.pesto.calculate_score(&board), 0);
    assert_eq!(bot.get_number_of_moves(&mut board, &move_gen_masks, &hasher), 20);
    assert_eq!(bot.evaluate_position(&mut board, &move_gen_masks, &hasher), 20);
}

#[test]
fn test_evaluation_of_single_pieces() {
    let hasher = ZobristHasher::load();
    let bot = Bot::default();
    // a white knight on d4 against bare kings, all pieces off: the game
    // phase is 1, so the score is (mg * 1 + eg * 23) / 24
    let board = Board::from_fen("4k3/8/8/8/3N4/8/8/4K3 w - - 0 1", &hasher).unwrap();
    let mg = (337 + 13) + (0 + (-15)) - (0 + (-15));
    let eg = (281 + 25) + (0 + (-28)) - (0 + (-28));
    assert_eq!(bot.pesto.calculate_score(&board), ((mg + eg * 23) / 24) as i64);
    let black = Board::from_fen("4k3/8/8/8/3N4/8/8/4K3 b - - 0 1", &hasher).unwrap();
    assert_eq!(bot.pesto.calculate_score(&black), -(((mg + eg * 23) / 24) as i64));
}

#[test]
fn test_evaluation_of_mate_and_stalemate() {
    let move_gen_masks = MoveGenMasks::load().unwrap();
    let hasher = ZobristHasher::load();
    let bot = Bot::default();
    let mut mated = Board::from_fen("R5k1/5ppp/8/8/8/8/8/4K3 b - - 0 1", &hasher).unwrap();
    assert_eq!(
        bot.evaluate_position(&mut mated, &move_gen_masks, &hasher),
        -CHECKMATE_SCORE
    );
    let mut stalemate = Board::from_fen("7k/5Q2/6K1/8/8/8/8/8 b - - 0 1", &hasher).unwrap();
    assert_eq!(bot.evaluate_position(&mut stalemate, &move_gen_masks, &hasher), 0);
}

#[test]
fn test_repetition_is_scored_as_a_draw() {
    let move_gen_masks = MoveGenMasks::load().unwrap();
    let hasher = ZobristHasher::load();
    let mut board = Board::new(&hasher);
    let line = ["g1f3", "g8f6", "f3g1", "f6g8", "g1f3", "g8f6", "f3g1", "f6g8"];
    for (i, text) in line.iter().enumerate() {
        assert!(!board.check_repeat_draw(), "before move {}", i);
        let the_move = Move::from_long_str(text, &board).unwrap();
        assert!(board.check_and_make_move(&the_move, &move_gen_masks, &hasher));
    }
    // the start position has now stood three times since the clock last
    // started over, though only two of them lie within the last eight moves
    assert_eq!(board.state.half_moves, 8);
    assert!(!board.check_repeat_draw());
    for text in ["g1f3", "g8f6", "f3g1", "f6g8"] {
        let the_move = Move::from_long_str(text, &board).unwrap();
        assert!(board.check_and_make_move(&the_move, &move_gen_masks, &hasher));
    }
    assert!(board.check_repeat_draw());
    let flag = AtomicBool::new(false);
    let mut stop = StopToken::new(&flag);
    let bot = Bot::default();
    let score = bot.alpha_beta(
        &mut board,
        &move_gen_masks,
        &hasher,
        MIN_VALUE,
        MAX_VALUE,
        3,
        &mut stop,
    );
    assert_eq!(score, (0, 1));
}

#[test]
fn test_fifty_moves_are_scored_as_a_draw() {
    let move_gen_masks = MoveGenMasks::load().unwrap();
    let hasher = ZobristHasher::load();
    let mut board = Board::from_fen("4k3/8/8/8/8/8/8/R3K3 w - - 100 80", &hasher).unwrap();
    let flag = AtomicBool::new(false);
    let mut stop = StopToken::new(&flag);
    let bot = Bot::default();
    let score = bot.alpha_beta(
        &mut board,
        &move_gen_masks,
        &hasher,
        MIN_VALUE,
        MAX_VALUE,
        2,
        &mut stop,
    );
    assert_eq!(score, (0, 1));
    let mut earlier = Board::from_fen("4k3/8/8/8/8/8/8/R3K3 w - - 99 80", &hasher).unwrap();
    let score = bot.alpha_beta(
        &mut earlier,
        &move_gen_masks,
        &hasher,
        MIN_VALUE,
        MAX_VALUE,
        0,
        &mut stop,
    );
    assert!(score.0 > 0);
}

#[test]
fn test_random_move_is_one_of_the_moves() {
    let a = Move::from_origin_and_destination(&Square::new(16), &Square::new(8), Pieces::PAWN);
    let b = Move::from_origin_and_destination(&Square::new(24), &Square::new(8), Pieces::PAWN);
    let c = Move::from_origin_and_destination(&Square::new(18), &Square::new(1), Pieces::KNIGHT);
    let moves = vec![
        (a, BitBoard::new(1)),
        (b, BitBoard::new(2)),
        (c, BitBoard::new(3)),
    ];
    for _ in 0..50 {
        let (picked, mark) = Bot::make_random_move(moves.clone());
        assert!(moves.iter().any(|(m, bb)| *m == picked && *bb == mark));
    }
    let (picked, mark) = pick_move(moves.clone(), 2);
    assert_eq!(picked, c);
    assert_eq!(mark, BitBoard::new(3));
}

#[test]
fn test_time_for_a_move() {
    let control = TimeControl::new(60000, 30000, 1000, 500, None);
    assert_eq!(control.get_move_time(&0), 60000 / 40 + 1000 / 2);
    assert_eq!(control.get_move_time(&1), 30000 / 40 + 500 / 2);
    let fixed = TimeControl::new(60000, 30000, 1000, 500, Some(200));
    assert_eq!(fixed.get_move_time(&0), 200);
    assert_eq!(fixed.get_move_time(&1), 200);
    let mut set = TimeControl::max();
    assert_eq!(set.get_move_time(&0), u32::MAX);
    set.set_move_time(300);
    assert_eq!(set.get_move_time(&1), 300);
}

#[test]
fn test_a_stopped_search_scores_nothing() {
    let move_gen_masks = MoveGenMasks::load().unwrap();
    let hasher = ZobristHasher::load();
    // white is a queen up: any search that runs scores far from nothing
    let text = "4k3/8/8/8/8/8/8/3QK3 w - - 0 1";
    let mut board = Board::from_fen(text, &hasher).unwrap();
    let bot = Bot::with_depth(3, TimeControl::max());
    let flag = AtomicBool::new(true);
    let mut stop = StopToken::new(&flag);
    assert_eq!(
        bot.alpha_beta(&mut board, &move_gen_masks, &hasher, MIN_VALUE, MAX_VALUE, 3, &mut stop),
        (0, 0)
    );
    assert!(stop.seen);
    assert_eq!(board.get_fen(), text);
    let mut stop = StopToken::new(&flag);
    assert_eq!(
        bot.quiescence(MIN_VALUE, MAX_VALUE, &mut board, &move_gen_masks, &hasher, &mut stop),
        (0, 0)
    );
    assert!(stop.seen);
    assert_eq!(board.get_fen(), text);

    // told that the look found the flag set, the search does not look again
    let clear = AtomicBool::new(false);
    let mut stop = StopToken::new(&clear);
    assert_eq!(
        bot.alpha_beta_after_poll(
            true,
            &mut board,
            &move_gen_masks,
            &hasher,
            MIN_VALUE,
            MAX_VALUE,
            3,
            &mut stop
        ),
        (0, 0)
    );
    assert!(!stop.seen);
    assert_eq!(
        bot.quiescence_after_poll(
            true,
            MIN_VALUE,
            MAX_VALUE,
            &mut board,
            &move_gen_masks,
            &hasher,
            &mut stop
        ),
        (0, 0)
    );
    assert!(!stop.seen);
    assert_eq!(board.get_fen(), text);

    // told that it found it clear, it searches
    let searched = bot.alpha_beta_after_poll(
        false,
        &mut board,
        &move_gen_masks,
        &hasher,
        MIN_VALUE,
        MAX_VALUE,
        3,
        &mut stop,
    );
    assert!(searched.0 > 500);
    assert_eq!(
        searched,
        bot.alpha_beta(&mut board, &move_gen_masks, &hasher, MIN_VALUE, MAX_VALUE, 3, &mut stop)
    );
    let quiet = bot.quiescence_after_poll(
        false,
        MIN_VALUE,
        MAX_VALUE,
        &mut board,
        &move_gen_masks,
        &hasher,
        &mut stop,
    );
    // a quiet position under its upper bound is no node of its own
    assert_eq!(
        quiet,
        (bot.evaluate_position(&mut board, &move_gen_masks, &hasher), 0)
    );
    // at its upper bound or above it is one
    let cut = bot.quiescence(MIN_VALUE, MIN_VALUE, &mut board, &move_gen_masks, &hasher, &mut stop);
    assert_eq!(cut, (quiet.0, 1));
    assert!(!stop.seen);
    assert_eq!(board.get_fen(), text);
}

#[test]
fn test_quiescence_takes_in_passing() {
    let move_gen_masks = MoveGenMasks::load().unwrap();
    let hasher = ZobristHasher::load();
    // the only capture is the one in passing, and it wins the pawn
    let text = "4k3/8/8/3pP3/8/8/8/4K3 w - d6 0 2";
    let mut board = Board::from_fen(text, &hasher).unwrap();
    let bot = Bot::default();
    let flag = AtomicBool::new(false);
    let mut stop = StopToken::new(&flag);
    let standing = bot.evaluate_position(&mut board, &move_gen_masks, &hasher);
    let quiet =
        bot.quiescence(MIN_VALUE, MAX_VALUE, &mut board, &move_gen_masks, &hasher, &mut stop);
    assert!(quiet.0 > standing);
    assert_eq!(board.get_fen(), text);
}

#[test]
fn test_a_mate_in_one_scores_as_mate_at_every_depth() {
    let move_gen_masks = MoveGenMasks::load().unwrap();
    let hasher = ZobristHasher::load();
    let text = "6k1/5ppp/8/8/8/8/8/R3K3 w - - 0 1";
    let mut board = Board::from_fen(text, &hasher).unwrap();
    let bot = Bot::default();
    let flag = AtomicBool::new(false);
    let mut stop = StopToken::new(&flag);
    for depth in 1..=3 {
        let found =
            bot.get_best_move_for_depth(depth, &mut board, &move_gen_masks, &hasher, &mut stop);
        assert!(found.0 >= CHECKMATE_SCORE, "depth {}", depth);
        assert_eq!(found.1.unwrap().to_long_string(), "a1a8");
        assert_eq!(board.get_fen(), text);
    }
    let found = bot.get_best_move_for_depth(1, &mut board, &move_gen_masks, &hasher, &mut stop);
    assert_eq!(found.0, CHECKMATE_SCORE);

    // with the hundredth half move the game is drawn before the mate counts
    let text = "6k1/5ppp/8/8/8/8/8/R3K3 w - - 99 60";
    let mut board = Board::from_fen(text, &hasher).unwrap();
    let found = bot.get_best_move_for_depth(1, &mut board, &move_gen_masks, &hasher, &mut stop);
    assert_eq!(found.0, 0);
    assert!(!stop.seen);
    // each of the fifteen moves leads to a drawn position, which is one node
    assert_eq!(found.2.depth, 1);
    assert_eq!(found.2.score, 0);
    assert_eq!(found.2.nodes, 15);
}

#[test]
fn test_counts_are_held_at_the_most() {
    assert_eq!(add_nodes(2, 3), 5);
    assert_eq!(add_nodes(0, 0), 0);
    assert_eq!(add_nodes(u64::MAX, 1), u64::MAX);
    assert_eq!(add_nodes(u64::MAX - 1, 1), u64::MAX);
    assert_eq!(add_nodes(1 << 63, 1 << 63), u64::MAX);
}

#[test]
fn test_each_depth_tells_of_itself() {
    let move_gen_masks = MoveGenMasks::load().unwrap();
    let hasher = ZobristHasher::load();
    let mut board = Board::new(&hasher);
    let bot = Bot::with_depth(2, TimeControl::max());
    let flag = AtomicBool::new(false);
    let mut stop = StopToken::new(&flag);
    let mut reports = Vec::new();
    let best = bot.get_best_move(&mut board, &move_gen_masks, &hasher, &mut stop, &mut reports);
    assert!(best.is_some());
    assert_eq!(reports.len(), 2);
    for (i, report) in reports.iter().enumerate() {
        let depth = i as u8 + 1;
        let alone =
            bot.get_best_move_for_depth(depth, &mut board, &move_gen_masks, &hasher, &mut stop);
        assert_eq!(report.depth, depth);
        assert_eq!(report.score, alone.0);
        assert_eq!(report.score, alone.2.score);
        assert_eq!(report.nodes, alone.2.nodes);
        assert!(report.nodes > 0);
    }
    assert_eq!(best, bot.get_best_move_for_depth(2, &mut board, &move_gen_masks, &hasher, &mut stop).1);

    // a depth that finds mate tells nothing
    let mut board = Board::from_fen("6k1/5ppp/8/8/8/8/8/R3K3 w - - 0 1", &hasher).unwrap();
    let mut reports = Vec::new();
    let best = bot.get_best_move(&mut board, &move_gen_masks, &hasher, &mut stop, &mut reports);
    assert_eq!(best.unwrap().to_long_string(), "a1a8");
    assert!(reports.is_empty());
}
