//! Magic numbers: a multiply-and-shift hash from the blockers that matter
//! for a slider on one square to a slot of that square's attack table.

use vstd::prelude::*;
use crate::types::bitboard::BitBoard;

verus! {

#[derive(Clone, Copy)]
pub struct Magic {
    pub mask: BitBoard,
    pub magic: u64,
    pub shift: u8,
}

/// The smallest shift a magic may have: a table then has at most 65536
/// slots.
pub const MIN_MAGIC_SHIFT: u8 = 48;

proof fn raw_index_bound(x: u64, s: u64)
    by (bit_vector)
    requires
        48 <= s < 64,
    ensures
        (x >> s) < (1u64 << ((64 - s) as u64)),
        (1u64 << ((64 - s) as u64)) <= 65536,
        (1u64 << ((64 - s) as u64)) >= 2,
{
}

/// The number of slots of a table addressed with shift `shift`.
pub open spec fn spec_table_size(shift: u8) -> int
    recommends
        48 <= shift < 64,
{
    (1u64 << ((64 - shift) as u64)) as int
}

/// A table holds between 2 and 65536 slots.
pub proof fn lemma_table_size(shift: u8)
    requires
        48 <= shift < 64,
    ensures
        2 <= spec_table_size(shift) <= 65536,
{
    raw_index_bound(0, shift as u64);
}

impl Magic {
    /// The shift leaves a table of at most 65536 slots.
    pub open spec fn wf(&self) -> bool {
        48 <= self.shift < 64
    }

    /// The slot that the occupancy `board_mask` falls into.
    pub open spec fn spec_index(&self, board_mask: u64) -> int {
        ((board_mask & self.mask.0).wrapping_mul(self.magic) >> (self.shift as u64)) as int
    }

    /// The slot depends on the occupancy only through the masked squares.
    pub proof fn lemma_index_masked(&self, board_mask: u64)
        ensures
            self.spec_index(board_mask & self.mask.0) == self.spec_index(board_mask),
    {
        let m = self.mask.0;
        assert((board_mask & m) & m == board_mask & m) by (bit_vector);
    }

    /// Every slot lies inside the table.
    pub proof fn lemma_index_bound(&self, board_mask: u64)
        requires
            self.wf(),
        ensures
            0 <= self.spec_index(board_mask) < spec_table_size(self.shift),
    {
        raw_index_bound((board_mask & self.mask.0).wrapping_mul(self.magic), self.shift as u64);
    }

    pub fn new(mask: BitBoard, magic: u64, shift: u8) -> (m: Self)
        ensures
            m.mask == mask,
            m.magic == magic,
            m.shift == shift,
    {
        Self { mask, magic, shift }
    }

    /// The slot that the occupancy `board_mask` falls into.
    pub fn get_index(&self, board_mask: BitBoard) -> (index: usize)
        requires
            self.wf(),
        ensures
            index == self.spec_index(board_mask.0),
            index < spec_table_size(self.shift),
    {
        proof {
            self.lemma_index_bound(board_mask.0);
            lemma_table_size(self.shift);
        }
        let blocker_mask: u64 = board_mask.0 & self.mask.0;
        (blocker_mask.wrapping_mul(self.magic) >> self.shift) as usize
    }

    /// The number of slots of this magic's table.
    pub fn table_size(&self) -> (size: usize)
        requires
            self.wf(),
        ensures
            size == spec_table_size(self.shift),
    {
        proof {
            lemma_table_size(self.shift);
        }
        (1u64 << (64 - self.shift)) as usize
    }
}

/// What `verify_magic` answers for a magic that sends two boards with
/// different moves to one slot.
#[derive(Clone, Copy, Debug, PartialEq, Eq, Structural)]
pub struct IncompatibleMagic;

/// No two of the boards of `moves` that `magic` sends to one slot have
/// different moves.
pub open spec fn magic_fits(moves: Seq<(BitBoard, BitBoard)>, magic: Magic) -> bool {
    forall|i: int, j: int|
        0 <= i < moves.len() && 0 <= j < moves.len() && magic.spec_index((#[trigger] moves[i]).0.0)
            == magic.spec_index((#[trigger] moves[j]).0.0) ==> moves[i].1 == moves[j].1
}

/// Whether `magic` can address a table of `moves`, pairs of a board of
/// blockers and the moves for it.
pub fn verify_magic(moves: &Vec<(BitBoard, BitBoard)>, magic: &Magic) -> (r: Result<(), IncompatibleMagic>)
    requires
        magic.wf(),
    ensures
        r.is_ok() == magic_fits(moves@, *magic),
{
    let size = magic.table_size();
    let mut slots: Vec<Option<BitBoard>> = Vec::with_capacity(size);
    let mut k: usize = 0;
    while k < size
        invariant
            k <= size,
            slots.len() == k,
            forall|i: int| 0 <= i < k ==> (#[trigger] slots[i]).is_none(),
        decreases size - k,
    {
        slots.push(None);
        k = k + 1;
    }
    let ghost mut owner: Seq<int> = Seq::new(size as nat, |i: int| 0int);
    let mut p: usize = 0;
    while p < moves.len()
        invariant
            magic.wf(),
            size == spec_table_size(magic.shift),
            slots.len() == size,
            owner.len() == size,
            p <= moves.len(),
            forall|i: int|
                0 <= i < size && (#[trigger] slots[i]).is_some() ==> 0 <= owner[i] < p
                    && magic.spec_index(moves[owner[i]].0.0) == i && slots[i] == Some(
                    moves[owner[i]].1,
                ),
            forall|q: int|
                0 <= q < p ==> slots[magic.spec_index((#[trigger] moves[q]).0.0)] == Some(moves[q].1),
        decreases moves.len() - p,
    {
        let (blocker_mask, move_mask) = moves[p];
        let index_key = magic.get_index(blocker_mask);
        let ghost old_slots = slots@;
        proof {
            assert forall|q: int| 0 <= q < p implies 0 <= magic.spec_index((#[trigger] moves[q]).0.0)
                < size by {
                magic.lemma_index_bound(moves[q].0.0);
            }
        }
        match slots[index_key] {
            Some(stored_mask) => {
                if stored_mask.0 != move_mask.0 {
                    proof {
                        let i = owner[index_key as int];
                        assert(magic.spec_index(moves[i].0.0) == magic.spec_index(moves[p as int].0.0));
                        assert(moves[i].1 != moves[p as int].1);
                    }
                    return Err(IncompatibleMagic);
                }
            },
            None => {
                slots[index_key] = Some(move_mask);
                proof {
                    owner = owner.update(index_key as int, p as int);
                }
            },
        }
        proof {
            assert forall|q: int| 0 <= q < p + 1 implies slots[magic.spec_index(
                (#[trigger] moves[q]).0.0,
            )] == Some(moves[q].1) by {
                if q < p {
                    assert(old_slots[magic.spec_index(moves[q].0.0)] == Some(moves[q].1));
                }
            }
        }
        p = p + 1;
    }
    proof {
        assert forall|i: int, j: int|
            0 <= i < moves.len() && 0 <= j < moves.len() && magic.spec_index(
                (#[trigger] moves[i]).0.0,
            ) == magic.spec_index((#[trigger] moves[j]).0.0) implies moves[i].1 == moves[j].1 by {
            assert(slots[magic.spec_index(moves[i].0.0)] == Some(moves[i].1));
            assert(slots[magic.spec_index(moves[j].0.0)] == Some(moves[j].1));
        }
    }
    Ok(())
}

/// The character of the hexadecimal digit `d`, in lower case.
pub open spec fn hex_digit_char(d: int) -> char
    recommends
        0 <= d < 16,
{
    if d < 10 {
        ((48 + d) as u8) as char
    } else {
        ((87 + d) as u8) as char
    }
}

/// `n` in hexadecimal digits, in lower case and without leading zeros.
pub open spec fn hex_text(n: nat) -> Seq<char>
    decreases n,
{
    if n < 16 {
        seq![hex_digit_char(n as int)]
    } else {
        hex_text(n / 16).push(hex_digit_char((n % 16) as int))
    }
}

/// Appends `n` in hexadecimal digits to `out`.
pub fn push_hex(out: &mut Vec<char>, n: u64)
    ensures
        final(out)@ == old(out)@ + hex_text(n as nat),
    decreases n,
{
    if n >= 16 {
        push_hex(out, n / 16);
    }
    let d: u8 = (n % 16) as u8;
    let digit: u8 = if d < 10 {
        48 + d
    } else {
        87 + d
    };
    out.push(digit as char);
    proof {
        assert(out@ =~= old(out)@ + hex_text(n as nat));
    }
}

/// The magic as a line of text: its mask and its multiplier in
/// hexadecimal, its shift in decimal.
pub open spec fn spec_magic_text(magic: Magic) -> Seq<char> {
    "Magic: mask=0x"@ + hex_text(magic.mask.0 as nat) + ", magic=0x"@ + hex_text(magic.magic as nat)
        + ", shift="@ + crate::fen::decimal_text(magic.shift as nat) + seq!['\n']
}

impl Magic {
    /// The magic as a line of text.
    pub fn to_string(&self) -> (text: String)
        ensures
            text@ == spec_magic_text(*self),
    {
        let mut out: Vec<char> = Vec::new();
        crate::utils::text::push_text(&mut out, "Magic: mask=0x");
        push_hex(&mut out, self.mask.0);
        crate::utils::text::push_text(&mut out, ", magic=0x");
        push_hex(&mut out, self.magic);
        crate::utils::text::push_text(&mut out, ", shift=");
        crate::fen::push_decimal(&mut out, self.shift as u16);
        out.push('\n');
        proof {
            assert(out@ =~= spec_magic_text(*self));
        }
        crate::utils::text::string_of(&out)
    }
}

} // verus!
