//! Squares of the board, numbered 0 to 63 from a1 along the ranks to h8.

use vstd::prelude::*;
use vstd::std_specs::bits::u8_trailing_zeros;
use vstd::std_specs::ops::AddSpecImpl;
use vstd::std_specs::ops::SubSpecImpl;
use std::ops::Add;
use std::ops::Sub;
use std::str::FromStr;

verus! {

/// A square index. Squares on the board are `0..64`: the rank is the index
/// divided by eight, the file its remainder.
#[derive(PartialEq, Eq, Debug, Clone, Copy, Hash, Structural)]
pub struct Square(pub u8);

/// The letter of file `file` (`a` for 0).
pub open spec fn file_char(file: int) -> char
    recommends
        0 <= file < 8,
{
    ((file + 97) as u8) as char
}

/// The digit of rank `rank` (`1` for 0).
pub open spec fn rank_char(rank: int) -> char
    recommends
        0 <= rank < 8,
{
    ((rank + 49) as u8) as char
}

/// The two-letter name of square `sq`, file letter first.
pub open spec fn square_name(sq: int) -> Seq<char>
    recommends
        0 <= sq < 64,
{
    seq![file_char(sq % 8), rank_char(sq / 8)]
}

/// The square that a two-letter name stands for, if it is one.
pub open spec fn square_from_name(name: Seq<char>) -> Option<int> {
    if name.len() == 2 && 'a' <= name[0] <= 'h' && '1' <= name[1] <= '8' {
        Some((name[0] as int - 97) + 8 * (name[1] as int - 49))
    } else {
        None
    }
}

/// Reading a square's name gives the square back.
pub proof fn lemma_square_name_round_trip(sq: int)
    requires
        0 <= sq < 64,
    ensures
        square_from_name(square_name(sq)) == Some(sq),
{
}

impl Square {
    /// Whether the square lies on the board.
    pub open spec fn on_board(&self) -> bool {
        self.0 < 64
    }

    pub fn new(bit: u8) -> (s: Self)
        ensures
            s.0 == bit,
    {
        Self(bit)
    }

    pub fn as_u8(&self) -> (r: u8)
        ensures
            r == self.0,
    {
        self.0
    }

    pub fn as_u16(&self) -> (r: u16)
        ensures
            r == self.0,
    {
        self.0 as u16
    }

    pub fn as_u64(&self) -> (r: u64)
        ensures
            r == self.0,
    {
        self.0 as u64
    }

    pub fn as_usize(&self) -> (r: usize)
        ensures
            r == self.0,
    {
        self.0 as usize
    }

    /// The square `rhs` places below.
    pub fn sub(&self, rhs: u8) -> (s: Self)
        requires
            rhs <= self.0,
        ensures
            s.0 == self.0 - rhs,
    {
        Self(self.0 - rhs)
    }

    /// The square `rhs` places above.
    pub fn add(&self, rhs: u8) -> (s: Self)
        requires
            self.0 + rhs <= u8::MAX,
        ensures
            s.0 == self.0 + rhs,
    {
        Self(self.0 + rhs)
    }

    pub fn get_rank(&self) -> (r: u8)
        ensures
            r == self.0 / 8,
    {
        self.0 / 8
    }

    /// The rank under its older name.
    pub fn get_row(&self) -> (r: u8)
        ensures
            r == self.0 / 8,
    {
        self.0 / 8
    }

    pub fn get_file(&self) -> (r: u8)
        ensures
            r == self.0 % 8,
    {
        self.0 % 8
    }

    /// The position of the lowest set bit of the index, 8 for index 0.
    pub fn get_bit_index(&self) -> (r: u8)
        ensures
            r == u8_trailing_zeros(self.0),
    {
        self.0.trailing_zeros() as u8
    }

    /// The square that `name` names: a file letter `a`..`h`, then a rank
    /// digit `1`..`8`. `None` for anything else.
    pub fn from_name(name: &[char]) -> (r: Option<Square>)
        ensures
            match square_from_name(name@) {
                Some(sq) => r == Some(Square(sq as u8)) && 0 <= sq < 64,
                None => r.is_none(),
            },
    {
        if name.len() != 2 {
            return None;
        }
        let f = name[0];
        let r = name[1];
        if 'a' <= f && f <= 'h' && '1' <= r && r <= '8' {
            let file = (f as u32 - 97) as u8;
            let rank = (r as u32 - 49) as u8;
            Some(Square(file + 8 * rank))
        } else {
            None
        }
    }

    /// The name of the square: file letter, then rank digit.
    pub fn name_chars(&self) -> (name: Vec<char>)
        requires
            self.on_board(),
        ensures
            name@ == square_name(self.0 as int),
    {
        let mut name: Vec<char> = Vec::with_capacity(2);
        name.push((self.get_file() + 97) as char);
        name.push((self.get_rank() + 49) as char);
        proof {
            assert(name@ =~= square_name(self.0 as int));
        }
        name
    }

    /// The name of the square, as a string.
    pub fn to_string(&self) -> (name: String)
        requires
            self.on_board(),
        ensures
            name@ == square_name(self.0 as int),
    {
        crate::utils::text::string_of(&self.name_chars())
    }
}

impl Add<u8> for Square {
    type Output = Square;

    fn add(self, rhs: u8) -> (s: Square) {
        Square(self.0 + rhs)
    }
}

impl AddSpecImpl<u8> for Square {
    open spec fn obeys_add_spec() -> bool {
        true
    }

    open spec fn add_req(self, rhs: u8) -> bool {
        self.0 + rhs <= u8::MAX
    }

    open spec fn add_spec(self, rhs: u8) -> Square {
        Square((self.0 + rhs) as u8)
    }
}

impl Sub<u8> for Square {
    type Output = Square;

    fn sub(self, rhs: u8) -> (s: Square) {
        Square(self.0 - rhs)
    }
}

impl SubSpecImpl<u8> for Square {
    open spec fn obeys_sub_spec() -> bool {
        true
    }

    open spec fn sub_req(self, rhs: u8) -> bool {
        rhs <= self.0
    }

    open spec fn sub_spec(self, rhs: u8) -> Square {
        Square((self.0 - rhs) as u8)
    }
}

impl Add<i8> for Square {
    type Output = Square;

    fn add(self, rhs: i8) -> (s: Square) {
        Square((self.0 as i16 + rhs as i16) as u8)
    }
}

impl AddSpecImpl<i8> for Square {
    open spec fn obeys_add_spec() -> bool {
        true
    }

    open spec fn add_req(self, rhs: i8) -> bool {
        0 <= self.0 + rhs <= u8::MAX
    }

    open spec fn add_spec(self, rhs: i8) -> Square {
        Square((self.0 + rhs) as u8)
    }
}

/// Why a text names no square.
#[derive(Clone, Copy, Debug, PartialEq, Eq, Structural)]
pub struct ParseSquareError;

impl FromStr for Square {
    type Err = ParseSquareError;

    /// The square that `s` names; see `Square::from_name`.
    fn from_str(s: &str) -> (r: Result<Self, Self::Err>)
        ensures
            match square_from_name(s@) {
                Some(sq) => r == Ok::<Square, ParseSquareError>(Square(sq as u8)),
                None => r.is_err(),
            },
    {
        let chars = crate::utils::text::chars_of(s);
        match Square::from_name(chars.as_slice()) {
            Some(square) => Ok(square),
            None => Err(ParseSquareError),
        }
    }
}

} // verus!
