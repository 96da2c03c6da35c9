use rustier_chess::board::Board;
use rustier_chess::utils::zobrist::ZobristHasher;

#[test]
fn test_to_fen() {
    let hasher = ZobristHasher::load();
    let fens = [
        "r3k2r/p1ppqpb1/bn2pnp1/3PN3/1p2P3/2N2Q1p/PPPBBPPP/R3K2R w KQkq - 0 1",
        "8/2p5/3p4/KP5r/1R3p1k/8/4P1P1/8 w - - 0 1",
        "r3k2r/Pppp1ppp/1b3nbN/nP6/BBP1P3/q4N2/Pp1P2PP/R2Q1RK1 w kq - 0 1",
        "r2q1rk1/pP1p2pp/Q4n2/bbp1p3/Np6/1B3NBn/pPPP1PPP/R3K2R b KQ - 0 1",
        "rnbq1k1r/pp1Pbppp/2p5/8/2B5/8/PPP1NnPP/RNBQK2R w KQ - 1 8",
        "r4rk1/1pp1qppp/p1np1n2/2b1p1B1/2B1P1b1/P1NP1N2/1PP1QPPP/R4RK1 w - - 0 10",
    ];

    assert_eq!(
        Board::new(&hasher).get_fen(),
        "rnbqkbnr/pppppppp/8/8/8/8/PPPPPPPP/RNBQKBNR w KQkq - 0 1"
    );

    for fen in fens {
        assert_eq!(Board::from_fen(fen, &hasher).unwrap().get_fen(), fen);
    }
}

#[test]
fn test_diagram() {
    let hasher = ZobristHasher::load();
    let board = Board::new(&hasher);
    let rule = "    -------------------------------";
    let expected = format!(
        "\n{r}\n 8 | r | n | b | q | k | b | n | r |\n{r}\n 7 | p | p | p | p | p | p | p | p |\n{r}\n 6 |   |   |   |   |   |   |   |   |\n{r}\n 5 |   |   |   |   |   |   |   |   |\n{r}\n 4 |   |   |   |   |   |   |   |   |\n{r}\n 3 |   |   |   |   |   |   |   |   |\n{r}\n 2 | P | P | P | P | P | P | P | P |\n{r}\n 1 | R | N | B | Q | K | B | N | R |\n{r}\n     A   B   C   D   E   F   G   H",
        r = rule
    );
    assert_eq!(board.to_string(), expected);
}
