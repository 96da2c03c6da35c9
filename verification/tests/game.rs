use std::sync::atomic::AtomicBool;

use rustier_chess::bots::bot::DepthReport;
use rustier_chess::bots::stop::StopToken;
use rustier_chess::game::command_of;
use rustier_chess::game::go_settings;
use rustier_chess::game::UCIGame;
use rustier_chess::game::UciCommand;
use rustier_chess::utils::text::chars_of;
use rustier_chess::utils::text::words;

fn words_of(line: &str) -> Vec<Vec<char>> {
    words(&chars_of(line))
}

#[test]
fn test_commands_are_told_apart() {
    assert_eq!(command_of(&words_of("uci")), UciCommand::Uci);
    assert_eq!(command_of(&words_of("isready")), UciCommand::IsReady);
    assert_eq!(command_of(&words_of("ucinewgame")), UciCommand::NewGame);
    assert_eq!(command_of(&words_of("position startpos")), UciCommand::Position);
    assert_eq!(command_of(&words_of("  go   depth 3")), UciCommand::Go);
    assert_eq!(command_of(&words_of("stop")), UciCommand::Stop);
    assert_eq!(command_of(&words_of("quit")), UciCommand::Quit);
    assert_eq!(command_of(&words_of("print_board")), UciCommand::PrintBoard);
    assert_eq!(command_of(&words_of("debug on")), UciCommand::Unknown);
    assert_eq!(command_of(&words_of("")), UciCommand::Unknown);
}

#[test]
fn test_go_settings() {
    let settings = go_settings(&words_of("go wtime 60000 btime 50000 winc 1000 binc 2000"));
    assert_eq!(settings.wtime, 60000);
    assert_eq!(settings.btime, 50000);
    assert_eq!(settings.winc, 1000);
    assert_eq!(settings.binc, 2000);
    assert_eq!(settings.move_time, None);
    assert_eq!(settings.depth, None);
    let settings = go_settings(&words_of("go movetime 200 depth 7"));
    assert_eq!(settings.move_time, Some(200));
    assert_eq!(settings.depth, Some(7));
    assert_eq!(settings.wtime, u32::MAX);
    let settings = go_settings(&words_of("go infinite"));
    assert_eq!(settings.depth, Some(255));
    // what is no number, or too large, is passed over
    let settings = go_settings(&words_of("go depth x movetime 99999999999 winc"));
    assert_eq!(settings.depth, None);
    assert_eq!(settings.move_time, None);
    assert_eq!(settings.winc, 0);
}

#[test]
fn test_position_command() {
    let mut game = UCIGame::new().unwrap();
    game.uci_position(&words_of("position startpos moves e2e4 e7e5 g1f3"));
    assert_eq!(
        game.board.get_fen(),
        "rnbqkbnr/pppp1ppp/8/4p3/4P3/5N2/PPPP1PPP/RNBQKB1R b KQkq - 1 2"
    );
    game.uci_position(&words_of(
        "position fen r3k2r/8/8/8/8/8/8/R3K2R w KQkq - 0 1 moves e1g1",
    ));
    assert_eq!(game.board.get_fen(), "r3k2r/8/8/8/8/8/8/R4RK1 b kq - 1 1");
    // after a move that is not legal no further move is made
    game.uci_position(&words_of("position startpos moves e2e4 e7e6 e4e6 d2d4"));
    assert_eq!(
        game.board.get_fen(),
        "rnbqkbnr/pppp1ppp/4p3/8/4P3/8/PPPP1PPP/RNBQKBNR w KQkq - 0 2"
    );
    // a position that cannot be read, or in which the side that moved is
    // in check, leaves the game as it is
    let before = game.board.get_fen();
    game.uci_position(&words_of("position fen 8/8/8/8/8/8/8/8 w - - 0"));
    assert_eq!(game.board.get_fen(), before);
    game.uci_position(&words_of("position fen 4k3/8/8/8/8/8/8/4K3 x - - 0 1"));
    assert_eq!(game.board.get_fen(), before);
    game.uci_position(&words_of("position fen 4k3/4R3/8/8/8/8/8/4K3 w - - 0 1"));
    assert_eq!(game.board.get_fen(), before);
    game.uci_position(&words_of("position fen 8/8/8/8/8/8/8/4K3 w - - 0 1"));
    assert_eq!(game.board.get_fen(), before);
    game.uci_position(&words_of("position somewhere"));
    assert_eq!(game.board.get_fen(), before);
    // so do fields that do not fit together: a right without its rook, a
    // target that no pawn passed, a pawn on the last rank
    game.uci_position(&words_of("position fen 4k3/8/8/8/8/8/8/4K3 w K - 0 1"));
    assert_eq!(game.board.get_fen(), before);
    game.uci_position(&words_of("position fen 4k3/8/8/8/8/8/8/4K3 w - e6 0 1"));
    assert_eq!(game.board.get_fen(), before);
    game.uci_position(&words_of("position fen P3k3/8/8/8/8/8/8/4K3 w - - 0 1"));
    assert_eq!(game.board.get_fen(), before);
    // white space of any kind parts the words
    game.uci_position(&words_of("position\tstartpos  moves\te2e4\n"));
    assert_eq!(
        game.board.get_fen(),
        "rnbqkbnr/pppppppp/8/8/4P3/8/PPPP1PPP/RNBQKBNR b KQkq e3 0 1"
    );
}

#[test]
fn test_go_when_stopped_finds_nothing() {
    let mut game = UCIGame::new().unwrap();
    let flag = AtomicBool::new(true);
    let mut stop = StopToken::new(&flag);
    let mut reports = Vec::new();
    assert!(game.uci_go(&mut stop, &mut reports).is_none());
    assert!(stop.seen);
    assert!(reports.is_empty());
    assert_eq!(
        game.board.get_fen(),
        "rnbqkbnr/pppppppp/8/8/8/8/PPPPPPPP/RNBQKBNR w KQkq - 0 1"
    );
}

#[test]
fn test_go_command() {
    let mut game = UCIGame::new().unwrap();
    game.uci_position(&words_of(
        "position fen 6k1/5ppp/8/8/8/8/8/R3K3 w - - 0 1",
    ));
    let (settings, time) = game.uci_go_settings(&words_of("go depth 2 wtime 40000 winc 600"));
    assert_eq!(settings.depth, Some(2));
    assert_eq!(time, 40000 / 40 + 600 / 2);
    assert_eq!(game.bot.max_depth, 2);
    let flag = AtomicBool::new(false);
    let mut stop = StopToken::new(&flag);
    let mut reports = Vec::new();
    let best = game.uci_go(&mut stop, &mut reports).unwrap();
    // mate is found at the first depth, which tells nothing
    assert!(reports.is_empty());
    assert_eq!(UCIGame::best_move_line(&best), "bestmove a1a8");
    // the move found is made
    assert_eq!(game.board.get_fen(), "R5k1/5ppp/8/8/8/8/8/4K3 b - - 1 1");
}

#[test]
fn test_answers() {
    let game = UCIGame::new().unwrap();
    assert_eq!(
        game.uci_uci(),
        vec![
            "id name rustier_chess".to_string(),
            "id author the rustier_chess authors".to_string(),
            "uciok".to_string()
        ]
    );
    assert_eq!(game.uci_is_ready(), "readyok");
}

#[test]
fn test_lines_of_a_search() {
    let mut game = UCIGame::new().unwrap();
    game.uci_go_settings(&words_of("go depth 2"));
    let flag = AtomicBool::new(false);
    let mut stop = StopToken::new(&flag);
    let mut reports = Vec::new();
    let best = game.uci_go(&mut stop, &mut reports);
    assert!(best.is_some());
    assert_eq!(reports.len(), 2);
    assert_eq!(UCIGame::depth_line(&reports[0], 2), "info depth 1 seldepth 2");
    assert_eq!(UCIGame::depth_line(&reports[1], 2), "info depth 2 seldepth 2");
    assert_eq!(
        UCIGame::score_line(&reports[1]),
        format!(
            "info score cp {} depth 2 nodes {}",
            reports[1].score, reports[1].nodes
        )
    );
    let report = DepthReport { depth: 3, score: -25, nodes: 1234 };
    assert_eq!(UCIGame::depth_line(&report, 200), "info depth 3 seldepth 200");
    assert_eq!(UCIGame::score_line(&report), "info score cp -25 depth 3 nodes 1234");
    let report = DepthReport { depth: 0, score: i32::MIN, nodes: u64::MAX };
    assert_eq!(
        UCIGame::score_line(&report),
        "info score cp -2147483648 depth 0 nodes 18446744073709551615"
    );
    let report = DepthReport { depth: 255, score: 0, nodes: 0 };
    assert_eq!(UCIGame::score_line(&report), "info score cp 0 depth 255 nodes 0");
}
