//! Moves, and the record that takes a move back.

use vstd::prelude::*;
use vstd::std_specs::cmp::PartialEqSpecImpl;
use crate::board::Board;
use crate::types::bitboard::BitBoard;
use crate::types::piece::Piece;
use crate::types::square::square_from_name;
use crate::types::square::square_name;
use crate::utils::text::chars_of;
use crate::utils::text::string_of;
use crate::types::piece::Pieces;
use crate::types::square::Square;
use crate::types::state::Castling;
use crate::utils::zobrist::ZobristHash;

verus! {

/// What `Board::make_move` hands back so that `Board::unmake_move` can
/// restore the position.
#[derive(Clone, Copy, Debug)]
pub struct UnmakeMoveHelper {
    pub origin: Square,
    pub destination: Square,
    pub move_bb: BitBoard,
    pub piece: usize,
    pub capture: Option<usize>,
    pub prev_en_passant: Option<Square>,
    pub prev_hash: ZobristHash,
    pub prev_halfmove: u8,
    pub prev_castling: Castling,
    pub was_promotion: bool,
    pub was_castling: bool,
}

/// A move: where from, where to, what moves, what a pawn promotes to, and
/// whether it is a pawn's double push (`special_move` is `Some(true)`: the
/// move leaves an en-passant target) or castling (`Some(false)`).
#[derive(Clone, Copy, Debug)]
pub struct Move {
    pub origin: Square,
    pub destination: Square,
    pub moving_piece: usize,
    pub promotion_piece: Option<usize>,
    pub special_move: Option<bool>,
    pub capture: Option<usize>,
}

impl Move {
    /// The move promotes a pawn.
    pub open spec fn is_promotion(&self) -> bool {
        self.promotion_piece.is_some()
    }

    /// The move is a double push, after which the square passed over is the
    /// en-passant target.
    pub open spec fn is_double_push(&self) -> bool {
        self.promotion_piece.is_none() && self.special_move == Some(true)
    }

    /// The move castles.
    pub open spec fn is_castling(&self) -> bool {
        self.promotion_piece.is_none() && self.special_move == Some(false)
    }

    /// Two moves are the same move when origin, destination and promotion
    /// agree.
    pub open spec fn same_as(&self, other: &Move) -> bool {
        self.origin == other.origin && self.destination == other.destination
            && self.promotion_piece == other.promotion_piece
    }

    pub fn from_origin_and_destination(destination: &Square, origin: &Square, moving_piece: usize) -> (m:
        Self)
        ensures
            m == (Move {
                origin: *origin,
                destination: *destination,
                moving_piece,
                promotion_piece: None,
                special_move: None,
                capture: None,
            }),
    {
        Self {
            origin: *origin,
            destination: *destination,
            moving_piece,
            promotion_piece: None,
            special_move: None,
            capture: None,
        }
    }

    pub fn set_castling(&mut self)
        ensures
            *final(self) == (Move { special_move: Some(false), ..*old(self) }),
    {
        self.special_move = Some(false)
    }

    pub fn set_promotion(&mut self, piece_type: usize)
        ensures
            *final(self) == (Move { promotion_piece: Some(piece_type), ..*old(self) }),
    {
        self.promotion_piece = Some(piece_type);
    }

    /// Marks the move as a double push.
    pub fn set_en_passant(&mut self)
        ensures
            *final(self) == (Move { special_move: Some(true), ..*old(self) }),
    {
        self.special_move = Some(true)
    }

    pub fn get_destination(&self) -> (s: Square)
        ensures
            s == self.destination,
    {
        self.destination
    }

    pub fn get_origin(&self) -> (s: Square)
        ensures
            s == self.origin,
    {
        self.origin
    }

    pub fn get_promotion_piece(&self) -> (p: Option<usize>)
        ensures
            p == self.promotion_piece,
    {
        self.promotion_piece
    }

    /// None -> no special move
    /// true -> a double push
    /// false -> castling
    pub fn get_special_move(&self) -> (s: Option<bool>)
        ensures
            s == self.special_move,
    {
        self.special_move
    }
}

/// The letter of the piece that a pawn promotes to.
pub open spec fn promotion_letter(piece: usize) -> char {
    if piece == 0 {
        'q'
    } else if piece == 3 {
        'n'
    } else if piece == 1 {
        'r'
    } else {
        'b'
    }
}

/// The piece that a promotion letter stands for.
pub open spec fn promotion_from_letter(c: char) -> Option<usize> {
    if c == 'q' {
        Some(0usize)
    } else if c == 'n' {
        Some(3usize)
    } else if c == 'r' {
        Some(1usize)
    } else if c == 'b' {
        Some(2usize)
    } else {
        None
    }
}

/// The move in long algebraic notation: the names of origin and
/// destination and, for a promotion, the letter of the new piece.
pub open spec fn spec_long_text(m: Move) -> Seq<char> {
    square_name(m.origin.0 as int) + square_name(m.destination.0 as int) + match m.promotion_piece {
        Some(p) => seq![promotion_letter(p)],
        None => Seq::<char>::empty(),
    }
}

/// The move that `text` stands for on a board with the pieces `squares`:
/// the names of two squares, the first with a piece on it, and then either
/// nothing or the letter of a piece to promote to. What follows a fifth
/// character is not looked at.
pub open spec fn spec_long_move(text: Seq<char>, squares: Seq<Option<Piece>>) -> Option<Move> {
    if text.len() < 4 {
        None
    } else {
        match (square_from_name(text.subrange(0, 2)), square_from_name(text.subrange(2, 4))) {
            (Some(o), Some(d)) => match squares[o] {
                Some(p) => if text.len() == 4 {
                    Some(
                        Move {
                            origin: Square(o as u8),
                            destination: Square(d as u8),
                            moving_piece: p.piece,
                            promotion_piece: None,
                            special_move: None,
                            capture: None,
                        },
                    )
                } else {
                    match promotion_from_letter(text[4]) {
                        Some(kind) => Some(
                            Move {
                                origin: Square(o as u8),
                                destination: Square(d as u8),
                                moving_piece: p.piece,
                                promotion_piece: Some(kind),
                                special_move: None,
                                capture: None,
                            },
                        ),
                        None => None,
                    }
                },
                None => None,
            },
            _ => None,
        }
    }
}

impl Move {
    /// The move that the characters `text` stand for on `board`.
    pub fn from_long_chars(text: &Vec<char>, board: &Board) -> (m: Option<Self>)
        requires
            board.pieces_ok(),
        ensures
            m == spec_long_move(text@, board@.squares),
    {
        if text.len() < 4 {
            return None;
        }
        let mut from: Vec<char> = Vec::with_capacity(2);
        from.push(text[0]);
        from.push(text[1]);
        let mut to: Vec<char> = Vec::with_capacity(2);
        to.push(text[2]);
        to.push(text[3]);
        proof {
            assert(from@ =~= text@.subrange(0, 2));
            assert(to@ =~= text@.subrange(2, 4));
        }
        let origin = match Square::from_name(from.as_slice()) {
            Some(square) => square,
            None => {
                return None;
            },
        };
        let destination = match Square::from_name(to.as_slice()) {
            Some(square) => square,
            None => {
                return None;
            },
        };
        let piece = match board.get_piece_on_square(&origin) {
            Some(piece) => piece.piece,
            None => {
                return None;
            },
        };
        let mut output = Move::from_origin_and_destination(&destination, &origin, piece);
        if text.len() > 4 {
            let promotion_piece = text[4];
            if promotion_piece == 'q' {
                output.set_promotion(Pieces::QUEEN);
            } else if promotion_piece == 'n' {
                output.set_promotion(Pieces::KNIGHT);
            } else if promotion_piece == 'r' {
                output.set_promotion(Pieces::ROOK);
            } else if promotion_piece == 'b' {
                output.set_promotion(Pieces::BISHOP);
            } else {
                return None;
            }
        }
        Some(output)
    }

    /// The move that `input` stands for on `board`.
    pub fn from_long_str(input: &str, board: &Board) -> (m: Option<Self>)
        requires
            board.pieces_ok(),
        ensures
            m == spec_long_move(input@, board@.squares),
    {
        let text = chars_of(input);
        Move::from_long_chars(&text, board)
    }

    /// The move in long algebraic notation.
    pub fn to_long_string(&self) -> (text: String)
        requires
            self.origin.on_board(),
            self.destination.on_board(),
            self.promotion_piece matches Some(p) ==> p < 4,
        ensures
            text@ == spec_long_text(*self),
    {
        let mut output: Vec<char> = Vec::with_capacity(5);
        let mut origin = self.get_origin().name_chars();
        let mut destination = self.get_destination().name_chars();
        output.append(&mut origin);
        output.append(&mut destination);
        if let Some(promotion_piece) = self.promotion_piece {
            let letter = if promotion_piece == Pieces::QUEEN {
                'q'
            } else if promotion_piece == Pieces::KNIGHT {
                'n'
            } else if promotion_piece == Pieces::ROOK {
                'r'
            } else {
                'b'
            };
            output.push(letter);
        }
        proof {
            assert(output@ =~= spec_long_text(*self));
        }
        string_of(&output)
    }
}

impl PartialEq for Move {
    fn eq(&self, other: &Self) -> (r: bool) {
        let same_promotion = match (self.promotion_piece, other.promotion_piece) {
            (Some(a), Some(b)) => a == b,
            (None, None) => true,
            _ => false,
        };
        self.origin.0 == other.origin.0 && self.destination.0 == other.destination.0
            && same_promotion
    }
}

impl PartialEqSpecImpl for Move {
    open spec fn obeys_eq_spec() -> bool {
        true
    }

    open spec fn eq_spec(&self, other: &Move) -> bool {
        self.same_as(other)
    }
}

impl Eq for Move {

}

} // verus!
