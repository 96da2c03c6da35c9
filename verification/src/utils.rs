pub mod polyglot_array;
pub mod text;
pub mod zobrist;

use vstd::prelude::*;
use vstd::string::StrSliceExecFns;

verus! {

/// The number of the square that the coordinate `text` names: eight times
/// the place of its digit among `1` to `8`, plus the place of its letter
/// among `a` to `h`. So `a1` is 0, `h1` is 7, `a8` is 56 and `h8` is 63.
pub open spec fn spec_coordinate_to_bit(text: Seq<char>) -> int {
    (text[1] as int - 49) * 8 + (text[0] as int - 97)
}

/// The number of the square that `coordinate` names, a lower-case letter
/// `a` to `h` followed by a digit `1` to `8`.
pub fn coordinate_to_bit(coordinate: &str) -> (bit: u8)
    requires
        coordinate@.len() >= 2,
        'a' <= coordinate@[0] <= 'h',
        '1' <= coordinate@[1] <= '8',
    ensures
        bit == spec_coordinate_to_bit(coordinate@),
        bit == (coordinate@[1] as int - 49) * 8 + (coordinate@[0] as int - 97),
{
    let letter = coordinate.get_char(0);
    let digit = coordinate.get_char(1);
    ((digit as u32 - 49) * 8 + (letter as u32 - 97)) as u8
}

} // verus!
