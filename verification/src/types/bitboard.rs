//! A 64-bit set of squares: bit `k` stands for square `k`.

use vstd::prelude::*;
use vstd::std_specs::bits::u64_trailing_zeros;
use vstd::std_specs::ops::BitAndSpecImpl;
use vstd::std_specs::ops::BitOrSpecImpl;
use vstd::std_specs::ops::BitXorSpecImpl;
use vstd::std_specs::ops::NotSpecImpl;
use vstd::std_specs::ops::ShlSpecImpl;
use vstd::std_specs::ops::ShrSpecImpl;
use std::ops::BitAnd;
use std::ops::BitOr;
use std::ops::BitXor;
use std::ops::Not;
use std::ops::Shl;
use std::ops::Shr;
use crate::types::bits::bit;
use crate::types::bits::single;
use crate::types::bits::popcount;
use crate::types::bits::count_bits;
use crate::types::bits::group_bit_lemmas;
use crate::types::bits::lemma_bit_shl;
use crate::types::bits::lemma_bit_shr;
use crate::types::bits::lemma_bit_test;
use crate::types::bits::lemma_lowest_bit;
use crate::types::bits::lemma_count_bits_clear;
use crate::types::bits::lemma_popcount_zero;
use crate::types::bits::lemma_count_bits_bound;
use crate::types::square::Square;

verus! {

/// Every square but those of the a-file.
pub const NOT_FILE_A: u64 = 0xfefe_fefe_fefe_fefe;

/// Every square but those of the h-file.
pub const NOT_FILE_H: u64 = 0x7f7f_7f7f_7f7f_7f7f;

#[derive(Clone, Copy, Hash, PartialEq, Eq, Debug, Structural)]
pub struct BitBoard(pub u64);

/// `s` lists the set bits of `x`, each once, lowest first.
pub open spec fn lists_ones(s: Seq<Square>, x: u64) -> bool {
    &&& forall|k: int| 0 <= k < s.len() ==> bit(x, (#[trigger] s[k]).0 as int)
    &&& forall|j: int, k: int| 0 <= j < k < s.len() ==> s[j].0 < s[k].0
    &&& forall|i: int| bit(x, i) ==> exists|k: int| 0 <= k < s.len() && (#[trigger] s[k]).0 == i
}

proof fn raw_file_masks(i: u64)
    by (bit_vector)
    requires
        i < 64,
    ensures
        ((0xfefe_fefe_fefe_fefeu64 >> i) & 1 == 1) == (i % 8 != 0),
        ((0x7f7f_7f7f_7f7f_7f7fu64 >> i) & 1 == 1) == (i % 8 != 7),
{
}

/// The two file masks, bit by bit.
pub proof fn lemma_file_masks(i: int)
    ensures
        bit(NOT_FILE_A, i) == (0 <= i < 64 && i % 8 != 0),
        bit(NOT_FILE_H, i) == (0 <= i < 64 && i % 8 != 7),
{
    if 0 <= i < 64 {
        raw_file_masks(i as u64);
    }
}

/// The set bits of `x` below position `n`, lowest first.
pub open spec fn ones_below(x: u64, n: int) -> Seq<Square>
    decreases n,
{
    if n <= 0 {
        Seq::empty()
    } else if bit(x, n - 1) {
        ones_below(x, n - 1).push(Square((n - 1) as u8))
    } else {
        ones_below(x, n - 1)
    }
}

/// The set bits of `x`, lowest first.
pub open spec fn spec_ones(x: u64) -> Seq<Square> {
    ones_below(x, 64)
}

/// `ones_below` lists exactly the set bits below `n`, in ascending order,
/// and there are `count_bits` of them.
pub proof fn lemma_ones_below(x: u64, n: int)
    requires
        0 <= n <= 64,
    ensures
        ones_below(x, n).len() == count_bits(x, n),
        forall|k: int|
            0 <= k < ones_below(x, n).len() ==> (#[trigger] ones_below(x, n)[k]).0 < n && bit(
                x,
                ones_below(x, n)[k].0 as int,
            ),
        forall|j: int, k: int|
            0 <= j < k < ones_below(x, n).len() ==> ones_below(x, n)[j].0 < ones_below(x, n)[k].0,
        forall|i: int|
            0 <= i < n && bit(x, i) ==> exists|k: int|
                0 <= k < ones_below(x, n).len() && (#[trigger] ones_below(x, n)[k]).0 == i,
    decreases n,
{
    if n > 0 {
        lemma_ones_below(x, n - 1);
        let prev = ones_below(x, n - 1);
        let cur = ones_below(x, n);
        if bit(x, n - 1) {
            assert(cur[cur.len() - 1].0 == n - 1);
            assert forall|i: int| 0 <= i < n && bit(x, i) implies exists|k: int|
                0 <= k < cur.len() && (#[trigger] cur[k]).0 == i by {
                if i < n - 1 {
                    let k = choose|k: int| 0 <= k < prev.len() && (#[trigger] prev[k]).0 == i;
                    assert(cur[k] == prev[k]);
                } else {
                    assert(cur[cur.len() - 1].0 == i);
                }
            }
        }
    }
}

/// The listing of the set bits satisfies `lists_ones`.
pub proof fn lemma_spec_ones(x: u64)
    ensures
        lists_ones(spec_ones(x), x),
        spec_ones(x).len() == popcount(x),
        spec_ones(x).len() <= 64,
{
    lemma_ones_below(x, 64);
    lemma_count_bits_bound(x, 64);
}

/// Where `x` has no set bit from `lo` up to `hi`, the listings below the
/// two agree.
pub proof fn lemma_ones_below_gap(x: u64, lo: int, hi: int)
    requires
        0 <= lo <= hi,
        forall|i: int| lo <= i < hi ==> !bit(x, i),
    ensures
        ones_below(x, hi) == ones_below(x, lo),
    decreases hi - lo,
{
    if hi > lo {
        lemma_ones_below_gap(x, lo, hi - 1);
    }
}

/// With no set bit from `low` up to `next` and one at `next`, the listing
/// below `next + 1` is the listing below `low` with `next` added.
pub proof fn lemma_ones_below_next(x: u64, low: int, next: int)
    requires
        0 <= low <= next < 64,
        forall|i: int| low <= i < next ==> !bit(x, i),
        bit(x, next),
    ensures
        ones_below(x, next + 1) == ones_below(x, low).push(Square(next as u8)),
{
    lemma_ones_below_gap(x, low, next);
}

/// With no set bit from `low` on, the listing below `low` is the whole
/// listing.
pub proof fn lemma_ones_below_rest(x: u64, low: int)
    requires
        0 <= low <= 64,
        forall|i: int| low <= i < 64 ==> !bit(x, i),
    ensures
        spec_ones(x) == ones_below(x, low),
{
    lemma_ones_below_gap(x, low, 64);
}

/// What is left to write of the picture of `x` from rank `rank` and file
/// `file` on: the ranks from the eighth down, each a line of `1` for the
/// squares of the board and `0` for the others.
pub open spec fn spec_picture_from(x: u64, rank: int, file: int) -> Seq<char>
    decreases rank + 1, 8 - file,
{
    if rank < 0 {
        Seq::empty()
    } else if file >= 8 {
        seq!['\n'] + spec_picture_from(x, rank - 1, 0)
    } else {
        seq![if bit(x, rank * 8 + file) {
            '1'
        } else {
            '0'
        }] + spec_picture_from(x, rank, file + 1)
    }
}

impl BitBoard {
    /// The board as a picture of eight lines; see `spec_picture_from`.
    pub fn to_string(&self) -> (text: String)
        ensures
            text@ == spec_picture_from(self.0, 7, 0),
    {
        let mut out: Vec<char> = Vec::with_capacity(72);
        let mut remaining: u8 = 8;
        proof {
            assert(out@ + spec_picture_from(self.0, 7, 0) =~= spec_picture_from(self.0, 7, 0));
        }
        while remaining > 0
            invariant
                remaining <= 8,
                out@ + spec_picture_from(self.0, remaining - 1, 0) == spec_picture_from(self.0, 7, 0),
            decreases remaining,
        {
            let rank = remaining - 1;
            let mut file: u8 = 0;
            while file < 8
                invariant
                    rank < 8,
                    file <= 8,
                    out@ + spec_picture_from(self.0, rank as int, file as int) == spec_picture_from(
                        self.0,
                        7,
                        0,
                    ),
                decreases 8 - file,
            {
                let ghost before = out@;
                let square = Square::new(rank * 8 + file);
                let c = if self.read_square(&square) {
                    '1'
                } else {
                    '0'
                };
                out.push(c);
                proof {
                    assert((before + seq![c]) + spec_picture_from(self.0, rank as int, file + 1)
                        =~= before + (seq![c] + spec_picture_from(self.0, rank as int, file + 1)));
                }
                file = file + 1;
            }
            let ghost before = out@;
            out.push('\n');
            proof {
                assert((before + seq!['\n']) + spec_picture_from(self.0, rank - 1, 0) =~= before + (
                seq!['\n'] + spec_picture_from(self.0, rank - 1, 0)));
            }
            remaining = rank;
        }
        proof {
            assert(out@ + spec_picture_from(self.0, -1, 0) =~= out@);
        }
        crate::utils::text::string_of(&out)
    }

    /// Whether the board holds square `sq`.
    pub open spec fn has(&self, sq: int) -> bool {
        bit(self.0, sq)
    }

    pub fn new(value: u64) -> (b: Self)
        ensures
            b.0 == value,
    {
        Self(value)
    }

    pub fn read_square(&self, square: &Square) -> (r: bool)
        requires
            square.on_board(),
        ensures
            r == self.has(square.0 as int),
    {
        proof {
            lemma_bit_test(self.0, square.0 as int);
        }
        self.0 & (1u64 << square.as_u8()) != 0
    }

    pub fn set_zero(&mut self, square: &Square)
        requires
            square.on_board(),
        ensures
            final(self).0 == old(self).0 & !single(square.0 as int),
            forall|i: int| final(self).has(i) == (old(self).has(i) && i != square.0),
    {
        broadcast use group_bit_lemmas;

        self.0 = self.0 & !(1u64 << square.as_u8());
    }

    pub fn set_one(&mut self, square: &Square)
        requires
            square.on_board(),
        ensures
            final(self).0 == old(self).0 | single(square.0 as int),
            forall|i: int| final(self).has(i) == (old(self).has(i) || i == square.0),
    {
        broadcast use group_bit_lemmas;

        self.0 = self.0 | (1u64 << square.as_u8());
    }

    /// The squares of the board, lowest first.
    pub fn get_ones(&self) -> (result: Vec<Square>)
        ensures
            result@ == spec_ones(self.0),
            lists_ones(result@, self.0),
            result@.len() == popcount(self.0),
            result@.len() <= 64,
    {
        let mut result: Vec<Square> = Vec::new();
        let mut rest: u64 = self.0;
        let ghost x = self.0;
        let ghost mut low: int = 0;
        while rest != 0
            invariant
                0 <= low <= 64,
                forall|i: int| bit(rest, i) == (bit(x, i) && i >= low),
                result@ == ones_below(x, low),
            decreases 64 - low,
        {
            proof {
                lemma_lowest_bit(rest);
            }
            let n_zeros = rest.trailing_zeros() as u8;
            let square = Square::new(n_zeros);
            let ghost prev = rest;
            rest = rest & !(1u64 << n_zeros);
            result.push(square);
            proof {
                assert forall|i: int| bit(rest, i) == (bit(x, i) && i >= n_zeros + 1) by {
                    crate::types::bits::lemma_bit_and(prev, !single(n_zeros as int), i);
                    crate::types::bits::lemma_bit_not(single(n_zeros as int), i);
                    crate::types::bits::lemma_bit_single(n_zeros as int, i);
                    if 0 <= i < n_zeros {
                        assert(!bit(prev, i));
                    }
                }
                assert forall|i: int| low <= i < n_zeros implies !bit(x, i) by {
                    assert(!bit(prev, i));
                }
                lemma_ones_below_gap(x, low, n_zeros as int);
                assert(bit(prev, n_zeros as int));
                low = n_zeros + 1;
            }
        }
        proof {
            assert forall|i: int| low <= i < 64 implies !bit(x, i) by {
                crate::types::bits::lemma_bit_zero(i);
            }
            lemma_ones_below_gap(x, low, 64);
            lemma_spec_ones(x);
        }
        result
    }

    /// The squares that the board does not hold, lowest first.
    pub fn get_zeros(&self) -> (result: Vec<Square>)
        ensures
            result@ == spec_ones(!self.0),
            lists_ones(result@, !self.0),
            result@.len() == popcount(!self.0),
    {
        let flipped = BitBoard(!self.0);
        flipped.get_ones()
    }

    pub fn zeros() -> (b: Self)
        ensures
            b.0 == 0,
    {
        Self(0)
    }

    pub fn zeros_with_one_bit(square: &Square) -> (b: Self)
        requires
            square.on_board(),
        ensures
            b.0 == single(square.0 as int),
            forall|i: int| b.has(i) == (i == square.0),
    {
        broadcast use group_bit_lemmas;

        let mut bb = Self(0);
        bb.set_one(square);
        assert(0u64 | single(square.0 as int) == single(square.0 as int)) by {
            assert forall|i: int| 0 <= i < 64 implies bit(0u64 | single(square.0 as int), i) == bit(
                single(square.0 as int),
                i,
            ) by {}
            crate::types::bits::lemma_bit_ext(0u64 | single(square.0 as int), single(square.0 as int));
        }
        bb
    }

    pub fn is_empty(&self) -> (r: bool)
        ensures
            r == (self.0 == 0),
            r == (forall|i: int| !self.has(i)),
    {
        proof {
            if self.0 != 0 {
                lemma_lowest_bit(self.0);
                assert(self.has(u64_trailing_zeros(self.0) as int));
            } else {
                lemma_bit_zero_all(self.0);
            }
        }
        self.0 == 0
    }

    pub fn as_u64(&self) -> (r: u64)
        ensures
            r == self.0,
    {
        self.0
    }

    /// The lowest square of the board.
    pub fn get_one(&self) -> (s: Square)
        requires
            self.0 != 0,
        ensures
            s.on_board(),
            self.has(s.0 as int),
            forall|i: int| self.has(i) ==> s.0 <= i,
            s.0 == u64_trailing_zeros(self.0),
    {
        proof {
            lemma_lowest_bit(self.0);
        }
        Square::new(self.0.trailing_zeros() as u8)
    }

    /// Removes the lowest square of the board and returns it.
    pub fn pop_lsb(&mut self) -> (s: Square)
        requires
            old(self).0 != 0,
        ensures
            s.on_board(),
            old(self).has(s.0 as int),
            forall|i: int| old(self).has(i) ==> s.0 <= i,
            forall|i: int| final(self).has(i) == (old(self).has(i) && i != s.0),
            popcount(final(self).0) + 1 == popcount(old(self).0),
    {
        let s = self.get_one();
        proof {
            lemma_count_bits_clear(self.0, s.0 as int, 64);
        }
        self.set_zero(&s);
        s
    }

    /// The number of squares on the board.
    pub fn count(&self) -> (n: u32)
        ensures
            n == popcount(self.0),
            n <= 64,
    {
        let mut rest = *self;
        let mut n: u32 = 0;
        proof {
            lemma_count_bits_bound(self.0, 64);
        }
        while rest.0 != 0
            invariant
                n + popcount(rest.0) == popcount(self.0),
                popcount(self.0) <= 64,
            decreases popcount(rest.0),
        {
            rest.pop_lsb();
            n = n + 1;
        }
        proof {
            lemma_popcount_zero(rest.0);
        }
        n
    }

    /// Moves every square `n` ranks up; squares pushed past the eighth rank
    /// are lost.
    pub fn shift_up(self, n: u8) -> (b: Self)
        requires
            n < 8,
        ensures
            b.0 == self.0 << ((8 * n) as u64),
            forall|i: int| #[trigger] b.has(i) == (8 * n <= i < 64 && self.has(i - 8 * n)),
    {
        let sh: u8 = 8 * n;
        let out = Self(self.0 << sh);
        proof {
            assert forall|i: int| #[trigger] out.has(i) == (sh <= i < 64 && self.has(i - sh)) by {
                lemma_bit_shl(self.0, sh as u64, i);
            }
        }
        out
    }

    /// Moves every square `n` ranks down; squares pushed below the first
    /// rank are lost.
    pub fn shift_down(self, n: u8) -> (b: Self)
        requires
            n < 8,
        ensures
            b.0 == self.0 >> ((8 * n) as u64),
            forall|i: int| #[trigger] b.has(i) == (0 <= i && i + 8 * n < 64 && self.has(i + 8 * n)),
    {
        let sh: u8 = 8 * n;
        let out = Self(self.0 >> sh);
        proof {
            assert forall|i: int| #[trigger] out.has(i) == (0 <= i && i + sh < 64 && self.has(i + sh)) by {
                lemma_bit_shr(self.0, sh as u64, i);
            }
        }
        out
    }

    /// Moves every square `n` files towards the a-file; squares pushed off
    /// the board are lost and none wraps to another rank.
    pub fn shift_left(self, n: u8) -> (b: Self)
        requires
            n < 8,
        ensures
            forall|i: int| #[trigger] b.has(i) == (0 <= i < 64 && i % 8 + n < 8 && self.has(i + n)),
    {
        let mut acc: u64 = self.0;
        let mut k: u8 = 0;
        proof {
            assert forall|i: int| #[trigger] bit(acc, i) == (0 <= i < 64 && i % 8 + 0 < 8 && bit(
                self.0,
                i + 0,
            )) by {}
        }
        while k < n
            invariant
                k <= n < 8,
                forall|i: int|
                    #[trigger] bit(acc, i) == (0 <= i < 64 && i % 8 + k < 8 && bit(self.0, i + k)),
            decreases n - k,
        {
            broadcast use group_bit_lemmas;

            let ghost prev = acc;
            acc = (acc >> 1) & NOT_FILE_H;
            proof {
                assert forall|i: int| #[trigger] bit(acc, i) == (0 <= i < 64 && i % 8 + (k + 1) < 8
                    && bit(self.0, i + (k + 1))) by {
                    lemma_bit_shr(prev, 1, i);
                    lemma_file_masks(i);
                }
            }
            k = k + 1;
        }
        Self(acc)
    }

    /// Moves every square `n` files towards the h-file; squares pushed off
    /// the board are lost and none wraps to another rank.
    pub fn shift_right(self, n: u8) -> (b: Self)
        requires
            n < 8,
        ensures
            forall|i: int| #[trigger] b.has(i) == (0 <= i < 64 && i % 8 >= n && self.has(i - n)),
    {
        let mut acc: u64 = self.0;
        let mut k: u8 = 0;
        proof {
            assert forall|i: int| #[trigger] bit(acc, i) == (0 <= i < 64 && i % 8 >= 0 && bit(
                self.0,
                i - 0,
            )) by {}
        }
        while k < n
            invariant
                k <= n < 8,
                forall|i: int|
                    #[trigger] bit(acc, i) == (0 <= i < 64 && i % 8 >= k && bit(self.0, i - k)),
            decreases n - k,
        {
            broadcast use group_bit_lemmas;

            let ghost prev = acc;
            acc = (acc << 1) & NOT_FILE_A;
            proof {
                assert forall|i: int| #[trigger] bit(acc, i) == (0 <= i < 64 && i % 8 >= k + 1 && bit(
                    self.0,
                    i - (k + 1),
                )) by {
                    lemma_bit_shl(prev, 1, i);
                    lemma_file_masks(i);
                }
            }
            k = k + 1;
        }
        Self(acc)
    }
}

proof fn lemma_bit_zero_all(x: u64)
    requires
        x == 0,
    ensures
        forall|i: int| !bit(x, i),
{
    assert forall|i: int| !bit(x, i) by {
        crate::types::bits::lemma_bit_zero(i);
    }
}

impl BitAnd for BitBoard {
    type Output = BitBoard;

    fn bitand(self, rhs: BitBoard) -> (b: BitBoard) {
        BitBoard(self.0 & rhs.0)
    }
}

impl BitAndSpecImpl for BitBoard {
    open spec fn obeys_bitand_spec() -> bool {
        true
    }

    open spec fn bitand_req(self, rhs: BitBoard) -> bool {
        true
    }

    open spec fn bitand_spec(self, rhs: BitBoard) -> BitBoard {
        BitBoard(self.0 & rhs.0)
    }
}

impl BitOr for BitBoard {
    type Output = BitBoard;

    fn bitor(self, rhs: BitBoard) -> (b: BitBoard) {
        BitBoard(self.0 | rhs.0)
    }
}

impl BitOrSpecImpl for BitBoard {
    open spec fn obeys_bitor_spec() -> bool {
        true
    }

    open spec fn bitor_req(self, rhs: BitBoard) -> bool {
        true
    }

    open spec fn bitor_spec(self, rhs: BitBoard) -> BitBoard {
        BitBoard(self.0 | rhs.0)
    }
}

impl BitXor for BitBoard {
    type Output = BitBoard;

    fn bitxor(self, rhs: BitBoard) -> (b: BitBoard) {
        BitBoard(self.0 ^ rhs.0)
    }
}

impl BitXorSpecImpl for BitBoard {
    open spec fn obeys_bitxor_spec() -> bool {
        true
    }

    open spec fn bitxor_req(self, rhs: BitBoard) -> bool {
        true
    }

    open spec fn bitxor_spec(self, rhs: BitBoard) -> BitBoard {
        BitBoard(self.0 ^ rhs.0)
    }
}

impl Not for BitBoard {
    type Output = BitBoard;

    fn not(self) -> (b: BitBoard) {
        BitBoard(!self.0)
    }
}

impl NotSpecImpl for BitBoard {
    open spec fn obeys_not_spec() -> bool {
        true
    }

    open spec fn not_req(self) -> bool {
        true
    }

    open spec fn not_spec(self) -> BitBoard {
        BitBoard(!self.0)
    }
}

impl Shl<u8> for BitBoard {
    type Output = BitBoard;

    fn shl(self, rhs: u8) -> (b: BitBoard) {
        BitBoard(self.0 << rhs)
    }
}

impl ShlSpecImpl<u8> for BitBoard {
    open spec fn obeys_shl_spec() -> bool {
        true
    }

    open spec fn shl_req(self, rhs: u8) -> bool {
        rhs < 64
    }

    open spec fn shl_spec(self, rhs: u8) -> BitBoard {
        BitBoard(self.0 << (rhs as u64))
    }
}

impl Shr<u8> for BitBoard {
    type Output = BitBoard;

    fn shr(self, rhs: u8) -> (b: BitBoard) {
        BitBoard(self.0 >> rhs)
    }
}

impl ShrSpecImpl<u8> for BitBoard {
    open spec fn obeys_shr_spec() -> bool {
        true
    }

    open spec fn shr_req(self, rhs: u8) -> bool {
        rhs < 64
    }

    open spec fn shr_spec(self, rhs: u8) -> BitBoard {
        BitBoard(self.0 >> (rhs as u64))
    }
}

} // verus!
