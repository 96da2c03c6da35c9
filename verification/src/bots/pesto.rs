//! The tapered piece-square evaluation known as PeSTO: each piece is worth
//! a value for its kind and a bonus for its square, once for the middlegame
//! and once for the endgame, and the two sums are blended by how much
//! material other than pawns is left.
//!
//! The tables are read as a diagram is: their first entry is a8, their last
//! h1, from white's side; a black piece uses the mirrored square.

use vstd::prelude::*;
use crate::board::Board;
use crate::types::piece::Piece;
use crate::types::square::Square;

verus! {

/// The bonus of a pawn on each square in the middlegame.
pub const MG_PAWN_TABLE: [i32; 64] = [
    0, 0, 0, 0, 0, 0, 0, 0,
    98, 134, 61, 95, 68, 126, 34, -11,
    -6, 7, 26, 31, 65, 56, 25, -20,
    -14, 13, 6, 21, 23, 12, 17, -23,
    -27, -2, -5, 12, 17, 6, 10, -25,
    -26, -4, -4, -10, 3, 3, 33, -12,
    -35, -1, -20, -23, -15, 24, 38, -22,
    0, 0, 0, 0, 0, 0, 0, 0,
];

/// The bonus of a pawn on each square in the endgame.
pub const EG_PAWN_TABLE: [i32; 64] = [
    0, 0, 0, 0, 0, 0, 0, 0,
    178, 173, 158, 134, 147, 132, 165, 187,
    94, 100, 85, 67, 56, 53, 82, 84,
    32, 24, 13, 5, -2, 4, 17, 17,
    13, 9, -3, -7, -7, -8, 3, -1,
    4, 7, -6, 1, 0, -5, -1, -8,
    13, 8, 8, 10, 13, 0, 2, -7,
    0, 0, 0, 0, 0, 0, 0, 0,
];

/// The bonus of a knight on each square in the middlegame.
pub const MG_KNIGHT_TABLE: [i32; 64] = [
    -167, -89, -34, -49, 61, -97, -15, -107,
    -73, -41, 72, 36, 23, 62, 7, -17,
    -47, 60, 37, 65, 84, 129, 73, 44,
    -9, 17, 19, 53, 37, 69, 18, 22,
    -13, 4, 16, 13, 28, 19, 21, -8,
    -23, -9, 12, 10, 19, 17, 25, -16,
    -29, -53, -12, -3, -1, 18, -14, -19,
    -105, -21, -58, -33, -17, -28, -19, -23,
];

/// The bonus of a knight on each square in the endgame.
pub const EG_KNIGHT_TABLE: [i32; 64] = [
    -58, -38, -13, -28, -31, -27, -63, -99,
    -25, -8, -25, -2, -9, -25, -24, -52,
    -24, -20, 10, 9, -1, -9, -19, -41,
    -17, 3, 22, 22, 22, 11, 8, -18,
    -18, -6, 16, 25, 16, 17, 4, -18,
    -23, -3, -1, 15, 10, -3, -20, -22,
    -42, -20, -10, -5, -2, -20, -23, -44,
    -29, -51, -23, -15, -22, -18, -50, -64,
];

/// The bonus of a bishop on each square in the middlegame.
pub const MG_BISHOP_TABLE: [i32; 64] = [
    -29, 4, -82, -37, -25, -42, 7, -8,
    -26, 16, -18, -13, 30, 59, 18, -47,
    -16, 37, 43, 40, 35, 50, 37, -2,
    -4, 5, 19, 50, 37, 37, 7, -2,
    -6, 13, 13, 26, 34, 12, 10, 4,
    0, 15, 15, 15, 14, 27, 18, 10,
    4, 15, 16, 0, 7, 21, 33, 1,
    -33, -3, -14, -21, -13, -12, -39, -21,
];

/// The bonus of a bishop on each square in the endgame.
pub const EG_BISHOP_TABLE: [i32; 64] = [
    -14, -21, -11, -8, -7, -9, -17, -24,
    -8, -4, 7, -12, -3, -13, -4, -14,
    2, -8, 0, -1, -2, 6, 0, 4,
    -3, 9, 12, 9, 14, 10, 3, 2,
    -6, 3, 13, 19, 7, 10, -3, -9,
    -12, -3, 8, 10, 13, 3, -7, -15,
    -14, -18, -7, -1, 4, -9, -15, -27,
    -23, -9, -23, -5, -9, -16, -5, -17,
];

/// The bonus of a rook on each square in the middlegame.
pub const MG_ROOK_TABLE: [i32; 64] = [
    32, 42, 32, 51, 63, 9, 31, 43,
    27, 32, 58, 62, 80, 67, 26, 44,
    -5, 19, 26, 36, 17, 45, 61, 16,
    -24, -11, 7, 26, 24, 35, -8, -20,
    -36, -26, -12, -1, 9, -7, 6, -23,
    -45, -25, -16, -17, 3, 0, -5, -33,
    -44, -16, -20, -9, -1, 11, -6, -71,
    -19, -13, 1, 17, 16, 7, -37, -26,
];

/// The bonus of a rook on each square in the endgame.
pub const EG_ROOK_TABLE: [i32; 64] = [
    13, 10, 18, 15, 12, 12, 8, 5,
    11, 13, 13, 11, -3, 3, 8, 3,
    7, 7, 7, 5, 4, -3, -5, -3,
    4, 3, 13, 1, 2, 1, -1, 2,
    3, 5, 8, 4, -5, -6, -8, -11,
    -4, 0, -5, -1, -7, -12, -8, -16,
    -6, -6, 0, 2, -9, -9, -11, -3,
    -9, 2, 3, -1, -5, -13, 4, -20,
];

/// The bonus of a queen on each square in the middlegame.
pub const MG_QUEEN_TABLE: [i32; 64] = [
    -28, 0, 29, 12, 59, 44, 43, 45,
    -24, -39, -5, 1, -16, 57, 28, 54,
    -13, -17, 7, 8, 29, 56, 47, 57,
    -27, -27, -16, -16, -1, 17, -2, 1,
    -9, -26, -9, -10, -2, -4, 3, -3,
    -14, 2, -11, -2, -5, 2, 14, 5,
    -35, -8, 11, 2, 8, 15, -3, 1,
    -1, -18, -9, 10, -15, -25, -31, -50,
];

/// The bonus of a queen on each square in the endgame.
pub const EG_QUEEN_TABLE: [i32; 64] = [
    -9, 22, 22, 27, 27, 19, 10, 20,
    -17, 20, 32, 41, 58, 25, 30, 0,
    -20, 6, 9, 49, 47, 35, 19, 9,
    3, 22, 24, 45, 57, 40, 57, 36,
    -18, 28, 19, 47, 31, 34, 39, 23,
    -16, -27, 15, 6, 9, 17, 10, 5,
    -22, -23, -30, -16, -16, -23, -36, -32,
    -33, -28, -22, -43, -5, -32, -20, -41,
];

/// The bonus of a king on each square in the middlegame.
pub const MG_KING_TABLE: [i32; 64] = [
    -65, 23, 16, -15, -56, -34, 2, 13,
    29, -1, -20, -7, -8, -4, -38, -29,
    -9, 24, 2, -16, -20, 6, 22, -22,
    -17, -20, -12, -27, -30, -25, -14, -36,
    -49, -1, -27, -39, -46, -44, -33, -51,
    -14, -14, -22, -46, -44, -30, -15, -27,
    1, 7, -8, -64, -43, -16, 9, 8,
    -15, 36, 12, -54, 8, -28, 24, 14,
];

/// The bonus of a king on each square in the endgame.
pub const EG_KING_TABLE: [i32; 64] = [
    -74, -35, -18, -18, -11, 15, 4, -17,
    -12, 17, 14, 17, 17, 38, 23, 11,
    10, 17, 23, 15, 20, 45, 44, 13,
    -8, 22, 24, 27, 26, 33, 26, 3,
    -18, -4, 21, 24, 27, 23, 9, -11,
    -19, -3, 11, 21, 23, 16, 7, -9,
    -27, -11, 4, 13, 14, 4, -5, -17,
    -53, -34, -21, -11, -28, -14, -24, -43,
];

/// The value of each kind of piece in the middlegame, by kind: queen,
/// rook, bishop, knight, pawn, king.
pub const MG_VALUE: [i32; 6] = [1025, 477, 365, 337, 82, 0];

/// The value of each kind of piece in the endgame, by kind.
pub const EG_VALUE: [i32; 6] = [936, 512, 297, 281, 94, 0];

/// What each kind of piece adds to the game phase, by kind.
pub const PHASE_WEIGHT: [i32; 6] = [4, 2, 1, 1, 0, 0];

/// The game phase of a board with all its pieces.
pub const FULL_PHASE: i32 = 24;

/// The bonus of a piece of kind `kind` on entry `index` of its table.
pub open spec fn spec_table_entry(kind: int, endgame: bool, index: int) -> int {
    if kind == 0 {
        if endgame {
            EG_QUEEN_TABLE[index] as int
        } else {
            MG_QUEEN_TABLE[index] as int
        }
    } else if kind == 1 {
        if endgame {
            EG_ROOK_TABLE[index] as int
        } else {
            MG_ROOK_TABLE[index] as int
        }
    } else if kind == 2 {
        if endgame {
            EG_BISHOP_TABLE[index] as int
        } else {
            MG_BISHOP_TABLE[index] as int
        }
    } else if kind == 3 {
        if endgame {
            EG_KNIGHT_TABLE[index] as int
        } else {
            MG_KNIGHT_TABLE[index] as int
        }
    } else if kind == 4 {
        if endgame {
            EG_PAWN_TABLE[index] as int
        } else {
            MG_PAWN_TABLE[index] as int
        }
    } else {
        if endgame {
            EG_KING_TABLE[index] as int
        } else {
            MG_KING_TABLE[index] as int
        }
    }
}

/// The entry of the tables for a piece of colour `color` on `square`: the
/// tables run from a8 to h1, so white's squares are mirrored top to bottom
/// and black's, seen from black's side, are not.
pub open spec fn spec_table_index(color: int, square: int) -> int {
    if color == 0 {
        (7 - square / 8) * 8 + square % 8
    } else {
        square
    }
}

/// What the piece `piece` on `square` is worth: the value of its kind plus
/// the bonus of its square.
pub open spec fn spec_piece_score(piece: Piece, square: int, endgame: bool) -> int {
    (if endgame {
        EG_VALUE[piece.piece as int] as int
    } else {
        MG_VALUE[piece.piece as int] as int
    }) + spec_table_entry(piece.piece as int, endgame, spec_table_index(piece.color as int, square))
}

/// What stands on a square counts for white if it is white's, against
/// white if it is black's.
pub open spec fn spec_square_score(content: Option<Piece>, square: int, endgame: bool) -> int {
    match content {
        Some(p) => if p.color == 0 {
            spec_piece_score(p, square, endgame)
        } else {
            -spec_piece_score(p, square, endgame)
        },
        None => 0,
    }
}

/// White's lead on the lowest `n` squares.
pub open spec fn spec_lead(squares: Seq<Option<Piece>>, endgame: bool, n: int) -> int
    decreases n,
{
    if n <= 0 {
        0
    } else {
        spec_lead(squares, endgame, n - 1) + spec_square_score(squares[n - 1], n - 1, endgame)
    }
}

/// What the pieces on the lowest `n` squares add to the game phase.
pub open spec fn spec_phase_sum(squares: Seq<Option<Piece>>, n: int) -> int
    decreases n,
{
    if n <= 0 {
        0
    } else {
        spec_phase_sum(squares, n - 1) + match squares[n - 1] {
            Some(p) => PHASE_WEIGHT[p.piece as int] as int,
            None => 0,
        }
    }
}

/// The game phase: 24 with all pieces on the board, 0 with pawns and kings
/// alone, never more than 24.
pub open spec fn spec_phase(squares: Seq<Option<Piece>>) -> int {
    if spec_phase_sum(squares, 64) > 24 {
        24
    } else {
        spec_phase_sum(squares, 64)
    }
}

/// `a` divided by 24, rounded towards zero.
pub open spec fn spec_blend(a: int) -> int {
    if a >= 0 {
        a / 24
    } else {
        -((-a) / 24)
    }
}

/// White's lead: the middlegame lead and the endgame lead, blended by the
/// game phase.
pub open spec fn spec_white_score(squares: Seq<Option<Piece>>) -> int {
    spec_blend(
        spec_lead(squares, false, 64) * spec_phase(squares) + spec_lead(squares, true, 64) * (24
            - spec_phase(squares)),
    )
}

/// The score of the position for the side to move.
pub open spec fn spec_pesto_score(squares: Seq<Option<Piece>>, turn: int) -> int {
    if turn == 0 {
        spec_white_score(squares)
    } else {
        -spec_white_score(squares)
    }
}

/// The entry of the table of the kind `kind` for the middlegame or the
/// endgame.
fn table_entry(kind: usize, endgame: bool, index: usize) -> (value: i32)
    requires
        kind < 6,
        index < 64,
    ensures
        value == spec_table_entry(kind as int, endgame, index as int),
{
    if kind == 0 {
        if endgame {
            EG_QUEEN_TABLE[index]
        } else {
            MG_QUEEN_TABLE[index]
        }
    } else if kind == 1 {
        if endgame {
            EG_ROOK_TABLE[index]
        } else {
            MG_ROOK_TABLE[index]
        }
    } else if kind == 2 {
        if endgame {
            EG_BISHOP_TABLE[index]
        } else {
            MG_BISHOP_TABLE[index]
        }
    } else if kind == 3 {
        if endgame {
            EG_KNIGHT_TABLE[index]
        } else {
            MG_KNIGHT_TABLE[index]
        }
    } else if kind == 4 {
        if endgame {
            EG_PAWN_TABLE[index]
        } else {
            MG_PAWN_TABLE[index]
        }
    } else {
        if endgame {
            EG_KING_TABLE[index]
        } else {
            MG_KING_TABLE[index]
        }
    }
}

/// The evaluator.
pub struct PeSTO;

impl Default for PeSTO {
    fn default() -> (p: Self) {
        PeSTO
    }
}

impl PeSTO {
    /// What the piece `piece` on `square` is worth.
    pub fn piece_score(&self, piece: Piece, square: Square, endgame: bool) -> (score: i64)
        requires
            piece.wf(),
            square.on_board(),
        ensures
            score == spec_piece_score(piece, square.0 as int, endgame),
            -0x1_0000_0000 <= score <= 0x1_0000_0000,
    {
        let index: usize = if piece.color == 0 {
            ((7 - square.get_rank()) * 8 + square.get_file()) as usize
        } else {
            square.as_usize()
        };
        let value: i32 = if endgame {
            EG_VALUE[piece.piece]
        } else {
            MG_VALUE[piece.piece]
        };
        value as i64 + table_entry(piece.piece, endgame, index) as i64
    }

    /// The score of the position on `board` for the side to move.
    pub fn calculate_score(&self, board: &Board) -> (score: i64)
        requires
            board.pieces_ok(),
        ensures
            score == spec_pesto_score(board@.squares, board.state.turn as int),
            -0x100_0000_0000 <= score <= 0x100_0000_0000,
    {
        let ghost squares = board@.squares;
        let mut middlegame: i64 = 0;
        let mut endgame: i64 = 0;
        let mut phase: i32 = 0;
        let mut s: u8 = 0;
        while s < 64
            invariant
                board.pieces_ok(),
                squares == board@.squares,
                s <= 64,
                middlegame == spec_lead(squares, false, s as int),
                endgame == spec_lead(squares, true, s as int),
                phase == spec_phase_sum(squares, s as int),
                -0x1_0000_0000 * s <= middlegame <= 0x1_0000_0000 * s,
                -0x1_0000_0000 * s <= endgame <= 0x1_0000_0000 * s,
                0 <= phase <= 4 * s,
            decreases 64 - s,
        {
            let square = Square::new(s);
            match board.get_piece_on_square(&square) {
                Some(piece) => {
                    let mg = self.piece_score(piece, square, false);
                    let eg = self.piece_score(piece, square, true);
                    if piece.color == 0 {
                        middlegame = middlegame + mg;
                        endgame = endgame + eg;
                    } else {
                        middlegame = middlegame - mg;
                        endgame = endgame - eg;
                    }
                    phase = phase + PHASE_WEIGHT[piece.piece];
                },
                None => {},
            }
            s = s + 1;
        }
        let phase: i64 = if phase > FULL_PHASE {
            FULL_PHASE as i64
        } else {
            phase as i64
        };
        assert(phase == spec_phase(squares));
        assert(-0x40_0000_0000 <= middlegame <= 0x40_0000_0000);
        assert(-0x40_0000_0000 <= endgame <= 0x40_0000_0000);
        assert(-0x600_0000_0000 <= middlegame * phase <= 0x600_0000_0000) by (nonlinear_arith)
            requires
                0 <= phase <= 24,
                -0x40_0000_0000 <= middlegame <= 0x40_0000_0000,
        ;
        assert(-0x600_0000_0000 <= endgame * (24 - phase) <= 0x600_0000_0000) by (nonlinear_arith)
            requires
                0 <= phase <= 24,
                -0x40_0000_0000 <= endgame <= 0x40_0000_0000,
        ;
        let first: i64 = middlegame * phase;
        let second: i64 = endgame * (24 - phase);
        let total: i64 = first + second;
        let white: i64 = if total >= 0 {
            total / 24
        } else {
            -((-total) / 24)
        };
        if board.state.turn == 0 {
            white
        } else {
            -white
        }
    }
}

} // verus!
