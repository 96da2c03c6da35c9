//! The part of a position that the pieces do not show: castling rights,
//! en-passant target, move counters and the side to move.

use vstd::prelude::*;
use crate::types::piece::Color;
use crate::types::square::Square;

verus! {

/// The home square of white's queen-side rook, a1, as a board.
pub const WHITE_LONG_ROOK_STARTING_MASK: u64 = 0x1;

/// The home square of white's king-side rook, h1, as a board.
pub const WHITE_SHORT_ROOK_STARTING_MASK: u64 = 0x80;

/// The home square of black's queen-side rook, a8, as a board.
pub const BLACK_LONG_ROOK_STARTING_MASK: u64 = 0x100000000000000;

/// The home square of black's king-side rook, h8, as a board.
pub const BLACK_SHORT_ROOK_STARTING_MASK: u64 = 0x8000000000000000;


/// Castling rights, one bit each.
///
/// bit 0:      white short
/// bit 1:      white long
/// bit 2:      black short
/// bit 3:      black long
/// bits 4-7:   unused
#[derive(Clone, Copy, Debug, PartialEq, Eq, Structural)]
pub struct Castling(pub u8);

/// Whether bit `b` of `c` is set. False for every `b` outside `0..8`.
pub open spec fn flag(c: u8, b: int) -> bool {
    0 <= b < 8 && c & (1u8 << (b as u8)) != 0
}

proof fn raw_flag_set(c: u8, b: u8, j: u8)
    by (bit_vector)
    requires
        b < 8,
        j < 8,
    ensures
        ((c | (1u8 << b)) & (1u8 << j) != 0) == (j == b || c & (1u8 << j) != 0),
        ((c & !(1u8 << b)) & (1u8 << j) != 0) == (j != b && c & (1u8 << j) != 0),
        c < 16 ==> (c | (1u8 << b)) < 16 || b >= 4,
        c < 16 ==> (c & !(1u8 << b)) < 16,
{
}

proof fn raw_flag_groups(c: u8, j: u8)
    by (bit_vector)
    requires
        j < 8,
    ensures
        ((c & !0b11u8) & (1u8 << j) != 0) == (j >= 2 && c & (1u8 << j) != 0),
        ((c & !0b1100u8) & (1u8 << j) != 0) == (j != 2 && j != 3 && c & (1u8 << j) != 0),
        (c & 0b11u8 != 0) == (c & (1u8 << 0u8) != 0 || c & (1u8 << 1u8) != 0),
        (c & 0b1100u8 != 0) == (c & (1u8 << 2u8) != 0 || c & (1u8 << 3u8) != 0),
        c < 16 ==> (c & !0b11u8) < 16 && (c & !0b1100u8) < 16,
        (0u8 & (1u8 << j) != 0) == false,
        (0b1111u8 & (1u8 << j) != 0) == (j < 4),
{
}

proof fn raw_flag_ext(c: u8, d: u8)
    by (bit_vector)
    requires
        c < 16,
        d < 16,
        (c & (1u8 << 0u8) != 0) == (d & (1u8 << 0u8) != 0),
        (c & (1u8 << 1u8) != 0) == (d & (1u8 << 1u8) != 0),
        (c & (1u8 << 2u8) != 0) == (d & (1u8 << 2u8) != 0),
        (c & (1u8 << 3u8) != 0) == (d & (1u8 << 3u8) != 0),
    ensures
        c == d,
{
}

/// Setting bit `b` sets that flag and leaves the others.
pub proof fn lemma_flag_set(c: u8, b: int, j: int)
    requires
        0 <= b < 8,
    ensures
        flag(c | (1u8 << (b as u8)), j) == (j == b || flag(c, j)),
        c < 16 && b < 4 ==> (c | (1u8 << (b as u8))) < 16,
{
    if 0 <= j < 8 {
        raw_flag_set(c, b as u8, j as u8);
    } else {
        raw_flag_set(c, b as u8, 0);
    }
}

/// Clearing bit `b` clears that flag and leaves the others.
pub proof fn lemma_flag_clear(c: u8, b: int, j: int)
    requires
        0 <= b < 8,
    ensures
        flag(c & !(1u8 << (b as u8)), j) == (j != b && flag(c, j)),
        c < 16 ==> (c & !(1u8 << (b as u8))) < 16,
{
    if 0 <= j < 8 {
        raw_flag_set(c, b as u8, j as u8);
    } else {
        raw_flag_set(c, b as u8, 0);
    }
}

/// The flags of the two-bit groups of one colour.
pub proof fn lemma_flag_groups(c: u8, j: int)
    ensures
        flag(c & !0b11u8, j) == (j >= 2 && flag(c, j)),
        flag(c & !0b1100u8, j) == (j != 2 && j != 3 && flag(c, j)),
        (c & 0b11u8 != 0) == (flag(c, 0) || flag(c, 1)),
        (c & 0b1100u8 != 0) == (flag(c, 2) || flag(c, 3)),
        c < 16 ==> (c & !0b11u8) < 16 && (c & !0b1100u8) < 16,
        !flag(0u8, j),
        flag(0b1111u8, j) == (0 <= j < 4),
{
    if 0 <= j < 8 {
        raw_flag_groups(c, j as u8);
    } else {
        raw_flag_groups(c, 0);
    }
}

/// Rights below 16 with the same four flags are the same rights.
pub proof fn lemma_flag_ext(c: u8, d: u8)
    requires
        c < 16,
        d < 16,
        flag(c, 0) == flag(d, 0),
        flag(c, 1) == flag(d, 1),
        flag(c, 2) == flag(d, 2),
        flag(c, 3) == flag(d, 3),
    ensures
        c == d,
{
    raw_flag_ext(c, d);
}

proof fn raw_flags_of_value(a: bool, b: bool, c: bool, d: bool)
    by (bit_vector)
    ensures
        ({
            let v = ((if a {
                1u8
            } else {
                0u8
            }) + (if b {
                2u8
            } else {
                0u8
            }) + (if c {
                4u8
            } else {
                0u8
            }) + (if d {
                8u8
            } else {
                0u8
            })) as u8;
            v < 16 && (v & (1u8 << 0u8) != 0) == a && (v & (1u8 << 1u8) != 0) == b && (v & (1u8
                << 2u8) != 0) == c && (v & (1u8 << 3u8) != 0) == d
        }),
{
}

/// The value that packs four flags is below 16 and shows those flags.
pub proof fn lemma_flags_of_value(a: bool, b: bool, c: bool, d: bool)
    ensures
        ({
            let v = ((if a {
                1int
            } else {
                0int
            }) + (if b {
                2int
            } else {
                0int
            }) + (if c {
                4int
            } else {
                0int
            }) + (if d {
                8int
            } else {
                0int
            })) as u8;
            v < 16 && flag(v, 0) == a && flag(v, 1) == b && flag(v, 2) == c && flag(v, 3) == d
        }),
{
    raw_flags_of_value(a, b, c, d);
}

impl Default for Castling {
    fn default() -> (c: Self)
        ensures
            c.0 == 0b1111,
    {
        Self(0b1111)
    }
}

impl Castling {
    /// Only the four low bits are in use.
    pub open spec fn wf(&self) -> bool {
        self.0 < 16
    }

    pub open spec fn spec_white_short(&self) -> bool {
        flag(self.0, 0)
    }

    pub open spec fn spec_white_long(&self) -> bool {
        flag(self.0, 1)
    }

    pub open spec fn spec_black_short(&self) -> bool {
        flag(self.0, 2)
    }

    pub open spec fn spec_black_long(&self) -> bool {
        flag(self.0, 3)
    }

    /// The right of `color` to castle short (`long` false) or long.
    pub open spec fn spec_right(&self, color: int, long: bool) -> bool {
        flag(
            self.0,
            2 * color + if long {
                1int
            } else {
                0int
            },
        )
    }

    /// No right at all.
    pub fn new() -> (c: Self)
        ensures
            c.0 == 0,
            forall|j: int| !flag(c.0, j),
    {
        proof {
            assert forall|j: int| !flag(0u8, j) by {
                lemma_flag_groups(0u8, j);
            }
        }
        Self(0)
    }

    pub fn read_bit(&self, bit: u8) -> (r: bool)
        requires
            bit < 8,
        ensures
            r == flag(self.0, bit as int),
    {
        self.0 & (1u8 << bit) != 0
    }

    pub fn set_zero(&mut self, bit: u8)
        requires
            bit < 8,
        ensures
            final(self).0 == old(self).0 & !(1u8 << bit),
            forall|j: int| flag(final(self).0, j) == (j != bit && flag(old(self).0, j)),
            old(self).wf() ==> final(self).wf(),
    {
        self.0 = self.0 & !(1u8 << bit);
        proof {
            assert forall|j: int| flag(self.0, j) == (j != bit && flag(old(self).0, j)) by {
                lemma_flag_clear(old(self).0, bit as int, j);
            }
            lemma_flag_clear(old(self).0, bit as int, 0);
        }
    }

    pub fn set_one(&mut self, bit: u8)
        requires
            bit < 8,
        ensures
            final(self).0 == old(self).0 | (1u8 << bit),
            forall|j: int| flag(final(self).0, j) == (j == bit || flag(old(self).0, j)),
            old(self).wf() && bit < 4 ==> final(self).wf(),
    {
        self.0 = self.0 | (1u8 << bit);
        proof {
            assert forall|j: int| flag(self.0, j) == (j == bit || flag(old(self).0, j)) by {
                lemma_flag_set(old(self).0, bit as int, j);
            }
            lemma_flag_set(old(self).0, bit as int, 0);
        }
    }

    pub fn set_white_short(&mut self)
        ensures
            final(self).0 == old(self).0 | (1u8 << 0u8),
            forall|j: int| flag(final(self).0, j) == (j == 0 || flag(old(self).0, j)),
            old(self).wf() ==> final(self).wf(),
    {
        self.set_one(0)
    }

    pub fn set_white_long(&mut self)
        ensures
            final(self).0 == old(self).0 | (1u8 << 1u8),
            forall|j: int| flag(final(self).0, j) == (j == 1 || flag(old(self).0, j)),
            old(self).wf() ==> final(self).wf(),
    {
        self.set_one(1)
    }

    pub fn set_black_short(&mut self)
        ensures
            final(self).0 == old(self).0 | (1u8 << 2u8),
            forall|j: int| flag(final(self).0, j) == (j == 2 || flag(old(self).0, j)),
            old(self).wf() ==> final(self).wf(),
    {
        self.set_one(2)
    }

    pub fn set_black_long(&mut self)
        ensures
            final(self).0 == old(self).0 | (1u8 << 3u8),
            forall|j: int| flag(final(self).0, j) == (j == 3 || flag(old(self).0, j)),
            old(self).wf() ==> final(self).wf(),
    {
        self.set_one(3)
    }

    pub fn white_short(&self) -> (r: bool)
        ensures
            r == self.spec_white_short(),
    {
        self.read_bit(0)
    }

    pub fn white_long(&self) -> (r: bool)
        ensures
            r == self.spec_white_long(),
    {
        self.read_bit(1)
    }

    pub fn black_short(&self) -> (r: bool)
        ensures
            r == self.spec_black_short(),
    {
        self.read_bit(2)
    }

    pub fn black_long(&self) -> (r: bool)
        ensures
            r == self.spec_black_long(),
    {
        self.read_bit(3)
    }

    pub fn remove_white_short(&mut self)
        ensures
            final(self).0 == old(self).0 & !(1u8 << 0u8),
            forall|j: int| flag(final(self).0, j) == (j != 0 && flag(old(self).0, j)),
            old(self).wf() ==> final(self).wf(),
    {
        self.set_zero(0)
    }

    pub fn remove_white_long(&mut self)
        ensures
            final(self).0 == old(self).0 & !(1u8 << 1u8),
            forall|j: int| flag(final(self).0, j) == (j != 1 && flag(old(self).0, j)),
            old(self).wf() ==> final(self).wf(),
    {
        self.set_zero(1)
    }

    pub fn remove_black_short(&mut self)
        ensures
            final(self).0 == old(self).0 & !(1u8 << 2u8),
            forall|j: int| flag(final(self).0, j) == (j != 2 && flag(old(self).0, j)),
            old(self).wf() ==> final(self).wf(),
    {
        self.set_zero(2)
    }

    pub fn remove_black_long(&mut self)
        ensures
            final(self).0 == old(self).0 & !(1u8 << 3u8),
            forall|j: int| flag(final(self).0, j) == (j != 3 && flag(old(self).0, j)),
            old(self).wf() ==> final(self).wf(),
    {
        self.set_zero(3)
    }

    /// Takes both rights of `color` away: white's for `Color::WHITE`,
    /// black's for any other value.
    pub fn remove_color_castling(&mut self, color: usize)
        ensures
            final(self).0 == (if color == 0 {
                old(self).0 & !0b11u8
            } else {
                old(self).0 & !0b1100u8
            }),
            color == 0 ==> forall|j: int| flag(final(self).0, j) == (j >= 2 && flag(old(self).0, j)),
            color != 0 ==> forall|j: int|
                flag(final(self).0, j) == (j != 2 && j != 3 && flag(old(self).0, j)),
            old(self).wf() ==> final(self).wf(),
    {
        proof {
            assert forall|j: int|
                flag(self.0 & !0b11u8, j) == (j >= 2 && flag(self.0, j)) && flag(
                    self.0 & !0b1100u8,
                    j,
                ) == (j != 2 && j != 3 && flag(self.0, j)) by {
                lemma_flag_groups(self.0, j);
            }
            lemma_flag_groups(self.0, 0);
        }
        if color == Color::WHITE {
            self.0 = self.0 & !0b11u8;
        } else {
            self.0 = self.0 & !0b1100u8;
        }
    }

    /// Whether `color` holds a right: white for `Color::WHITE`, black for
    /// any other value.
    pub fn can_color_castle(&self, color: usize) -> (r: bool)
        ensures
            r == (if color == 0 {
                self.0 & 0b11u8 != 0
            } else {
                self.0 & 0b1100u8 != 0
            }),
            color == 0 ==> r == (self.spec_white_short() || self.spec_white_long()),
            color != 0 ==> r == (self.spec_black_short() || self.spec_black_long()),
    {
        proof {
            lemma_flag_groups(self.0, 0);
        }
        if color == Color::WHITE {
            self.0 & 0b11u8 != 0
        } else {
            self.0 & 0b1100u8 != 0
        }
    }

    pub fn can_someone_castle(&self) -> (r: bool)
        ensures
            r == (self.0 != 0),
            self.wf() ==> r == (self.spec_white_short() || self.spec_white_long()
                || self.spec_black_short() || self.spec_black_long()),
    {
        proof {
            if self.wf() {
                if !(self.spec_white_short() || self.spec_white_long() || self.spec_black_short()
                    || self.spec_black_long()) {
                    lemma_flag_groups(0u8, 0);
                    lemma_flag_groups(0u8, 1);
                    lemma_flag_groups(0u8, 2);
                    lemma_flag_groups(0u8, 3);
                    lemma_flag_ext(self.0, 0u8);
                }
                if self.0 == 0 {
                    lemma_flag_groups(0u8, 0);
                    lemma_flag_groups(0u8, 1);
                    lemma_flag_groups(0u8, 2);
                    lemma_flag_groups(0u8, 3);
                }
            }
        }
        self.0 != 0
    }

    /// The rights of `color` as a (short, long) pair: white's for
    /// `Color::WHITE`, black's for any other value.
    pub fn can_castle(&self, color: usize) -> (r: (bool, bool))
        ensures
            color == 0 ==> r == (self.spec_white_short(), self.spec_white_long()),
            color != 0 ==> r == (self.spec_black_short(), self.spec_black_long()),
    {
        if color == Color::WHITE {
            (self.white_short(), self.white_long())
        } else {
            (self.black_short(), self.black_long())
        }
    }
}

#[derive(Clone, Copy, Debug)]
pub struct State {
    pub castling: Castling,
    pub en_passant: Option<Square>,
    pub half_moves: u8,
    pub full_moves: u16,
    pub turn: usize,
    pub opponent: usize,
}

impl Default for State {
    fn default() -> (s: Self)
        ensures
            s.castling.0 == 0b1111,
            s.en_passant.is_none(),
            s.half_moves == 0,
            s.full_moves == 0,
            s.turn == 0,
            s.opponent == 1,
    {
        Self {
            castling: Castling::default(),
            en_passant: None,
            half_moves: 0,
            full_moves: 0,
            turn: Color::WHITE,
            opponent: Color::BLACK,
        }
    }
}

impl State {
    /// The two sides are white and black, one to move and one not, and no
    /// unused castling bit is set.
    pub open spec fn wf(&self) -> bool {
        &&& self.turn < 2
        &&& self.opponent == 1 - self.turn
        &&& self.castling.wf()
        &&& self.en_passant matches Some(sq) ==> sq.on_board()
    }

    pub fn set_en_passant(&mut self, square: Square)
        ensures
            *final(self) == (State { en_passant: Some(square), ..*old(self) }),
    {
        self.en_passant = Some(square)
    }

    /// Counts one more half move since the last capture or pawn move.
    pub fn increment_half_move(&mut self)
        requires
            old(self).half_moves < u8::MAX,
        ensures
            *final(self) == (State { half_moves: (old(self).half_moves + 1) as u8, ..*old(self) }),
    {
        self.half_moves += 1;
    }

    /// `increment_half_move` under its older name.
    pub fn increase_half_move(&mut self)
        requires
            old(self).half_moves < u8::MAX,
        ensures
            *final(self) == (State { half_moves: (old(self).half_moves + 1) as u8, ..*old(self) }),
    {
        self.half_moves += 1;
    }

    pub fn reset_half_move(&mut self)
        ensures
            *final(self) == (State { half_moves: 0, ..*old(self) }),
    {
        self.half_moves = 0;
    }

    /// Counts one more full move; called after each move of black.
    pub fn increment_full_move(&mut self)
        requires
            old(self).full_moves < u16::MAX,
        ensures
            *final(self) == (State { full_moves: (old(self).full_moves + 1) as u16, ..*old(self) }),
    {
        self.full_moves += 1;
    }

    pub fn restore_full_move(&mut self)
        requires
            old(self).full_moves > 0,
        ensures
            *final(self) == (State { full_moves: (old(self).full_moves - 1) as u16, ..*old(self) }),
    {
        self.full_moves -= 1;
    }

    /// Hands the move to the other side.
    pub fn change_turn(&mut self)
        requires
            old(self).turn < 2,
        ensures
            *final(self) == (State {
                turn: (1 - old(self).turn) as usize,
                opponent: old(self).turn,
                ..*old(self)
            }),
    {
        self.opponent = self.turn;
        self.turn = 1 - self.turn;
    }

    /// Takes from `color` the right to castle short (`side` 0) or long
    /// (`side` 1): the right at bit `2 * color + side`.
    pub fn remove_castling_rights(&mut self, color: usize, side: usize)
        requires
            color < 2,
            side < 2,
        ensures
            final(self).castling.0 == old(self).castling.0 & !(1u8 << ((2 * color + side) as u8)),
            forall|j: int|
                flag(final(self).castling.0, j) == (j != 2 * color + side && flag(
                    old(self).castling.0,
                    j,
                )),
            old(self).castling.wf() ==> final(self).castling.wf(),
            final(self).en_passant == old(self).en_passant,
            final(self).half_moves == old(self).half_moves,
            final(self).full_moves == old(self).full_moves,
            final(self).turn == old(self).turn,
            final(self).opponent == old(self).opponent,
    {
        let bit: u8 = (2 * color + side) as u8;
        self.castling.set_zero(bit);
    }
}

} // verus!
