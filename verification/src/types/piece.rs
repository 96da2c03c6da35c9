//! Colours and piece kinds, as the indices that the boards are stored under.

use vstd::prelude::*;

verus! {

pub struct Color;

impl Color {
    pub const WHITE: usize = 0;

    pub const BLACK: usize = 1;

    /// The colour that `color` plays against.
    pub fn other_color(color: usize) -> (other: usize)
        ensures
            other == spec_other_color(color),
            other < 2,
            color < 2 ==> other == 1 - color,
    {
        if color == Self::WHITE {
            Self::BLACK
        } else {
            Self::WHITE
        }
    }
}

/// Black for white, white for anything else.
pub open spec fn spec_other_color(color: usize) -> usize {
    if color == 0 {
        1
    } else {
        0
    }
}

pub struct Pieces;

impl Pieces {
    pub const QUEEN: usize = 0;

    pub const ROOK: usize = 1;

    pub const BISHOP: usize = 2;

    pub const KNIGHT: usize = 3;

    pub const PAWN: usize = 4;

    pub const KING: usize = 5;
}

#[derive(Clone, Copy, PartialEq, Eq, Debug, Structural)]
pub struct Piece {
    pub piece: usize,
    pub color: usize,
}

/// The letter that stands for a piece kind of a colour: upper case for
/// white, lower case for black.
pub open spec fn piece_letter(piece: int, color: int) -> char
    recommends
        0 <= piece < 6,
        0 <= color < 2,
{
    if color == 0 {
        if piece == 0 {
            'Q'
        } else if piece == 1 {
            'R'
        } else if piece == 2 {
            'B'
        } else if piece == 3 {
            'N'
        } else if piece == 4 {
            'P'
        } else {
            'K'
        }
    } else {
        if piece == 0 {
            'q'
        } else if piece == 1 {
            'r'
        } else if piece == 2 {
            'b'
        } else if piece == 3 {
            'n'
        } else if piece == 4 {
            'p'
        } else {
            'k'
        }
    }
}

/// The piece kind and colour that a letter stands for, if any.
pub open spec fn piece_from_letter(c: char) -> Option<(int, int)> {
    if c == 'Q' {
        Some((0, 0))
    } else if c == 'R' {
        Some((1, 0))
    } else if c == 'B' {
        Some((2, 0))
    } else if c == 'N' {
        Some((3, 0))
    } else if c == 'P' {
        Some((4, 0))
    } else if c == 'K' {
        Some((5, 0))
    } else if c == 'q' {
        Some((0, 1))
    } else if c == 'r' {
        Some((1, 1))
    } else if c == 'b' {
        Some((2, 1))
    } else if c == 'n' {
        Some((3, 1))
    } else if c == 'p' {
        Some((4, 1))
    } else if c == 'k' {
        Some((5, 1))
    } else {
        None
    }
}

/// Reading a piece's letter gives the piece back.
pub proof fn lemma_piece_letter_round_trip(piece: int, color: int)
    requires
        0 <= piece < 6,
        0 <= color < 2,
    ensures
        piece_from_letter(piece_letter(piece, color)) == Some((piece, color)),
{
}

impl Piece {
    pub open spec fn wf(&self) -> bool {
        self.piece < 6 && self.color < 2
    }

    pub fn new(piece: usize, color: usize) -> (p: Self)
        ensures
            p.piece == piece,
            p.color == color,
    {
        Self { piece, color }
    }

    /// The piece's letter.
    pub fn to_char(&self) -> (c: char)
        requires
            self.wf(),
        ensures
            c == piece_letter(self.piece as int, self.color as int),
    {
        if self.color == 0 {
            if self.piece == 0 {
                'Q'
            } else if self.piece == 1 {
                'R'
            } else if self.piece == 2 {
                'B'
            } else if self.piece == 3 {
                'N'
            } else if self.piece == 4 {
                'P'
            } else {
                'K'
            }
        } else {
            if self.piece == 0 {
                'q'
            } else if self.piece == 1 {
                'r'
            } else if self.piece == 2 {
                'b'
            } else if self.piece == 3 {
                'n'
            } else if self.piece == 4 {
                'p'
            } else {
                'k'
            }
        }
    }

    /// The piece's letter, as a string.
    pub fn to_string(&self) -> (text: String)
        requires
            self.wf(),
        ensures
            text@ == seq![piece_letter(self.piece as int, self.color as int)],
    {
        let mut letters: Vec<char> = Vec::with_capacity(1);
        letters.push(self.to_char());
        proof {
            assert(letters@ =~= seq![piece_letter(self.piece as int, self.color as int)]);
        }
        crate::utils::text::string_of(&letters)
    }

    /// The piece that a letter stands for, if any.
    pub fn from_char(c: char) -> (p: Option<Piece>)
        ensures
            match piece_from_letter(c) {
                Some((piece, color)) => p == Some(Piece { piece: piece as usize, color: color as usize }),
                None => p.is_none(),
            },
    {
        if c == 'Q' {
            Some(Piece { piece: 0, color: 0 })
        } else if c == 'R' {
            Some(Piece { piece: 1, color: 0 })
        } else if c == 'B' {
            Some(Piece { piece: 2, color: 0 })
        } else if c == 'N' {
            Some(Piece { piece: 3, color: 0 })
        } else if c == 'P' {
            Some(Piece { piece: 4, color: 0 })
        } else if c == 'K' {
            Some(Piece { piece: 5, color: 0 })
        } else if c == 'q' {
            Some(Piece { piece: 0, color: 1 })
        } else if c == 'r' {
            Some(Piece { piece: 1, color: 1 })
        } else if c == 'b' {
            Some(Piece { piece: 2, color: 1 })
        } else if c == 'n' {
            Some(Piece { piece: 3, color: 1 })
        } else if c == 'p' {
            Some(Piece { piece: 4, color: 1 })
        } else if c == 'k' {
            Some(Piece { piece: 5, color: 1 })
        } else {
            None
        }
    }
}

} // verus!
