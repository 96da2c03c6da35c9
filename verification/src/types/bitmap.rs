//! A 64-bit set of small numbers, addressed by plain bit positions.

use vstd::prelude::*;
use crate::types::bits::bit;
use crate::types::bits::single;
use crate::types::bits::popcount;
use crate::types::bits::group_bit_lemmas;
use crate::types::bits::lemma_bit_test;
use crate::types::bitboard::BitBoard;

verus! {

#[derive(Clone, Copy)]
pub struct BitMap {
    pub value: u64,
}

/// `s` lists the set bits of `x`, each once, lowest first.
pub open spec fn lists_positions(s: Seq<u8>, x: u64) -> bool {
    &&& forall|k: int| 0 <= k < s.len() ==> bit(x, #[trigger] s[k] as int)
    &&& forall|j: int, k: int| 0 <= j < k < s.len() ==> s[j] < s[k]
    &&& forall|i: int| bit(x, i) ==> exists|k: int| 0 <= k < s.len() && #[trigger] s[k] == i
}

impl BitMap {
    pub fn new(value: u64) -> (m: Self)
        ensures
            m.value == value,
    {
        Self { value }
    }

    pub fn read_bit(&self, bit: u8) -> (r: bool)
        requires
            bit < 64,
        ensures
            r == crate::types::bits::bit(self.value, bit as int),
    {
        proof {
            lemma_bit_test(self.value, bit as int);
        }
        self.value & (1u64 << bit) != 0
    }

    pub fn set_zero(&mut self, bit: u8)
        requires
            bit < 64,
        ensures
            final(self).value == old(self).value & !single(bit as int),
            forall|i: int|
                crate::types::bits::bit(final(self).value, i) == (crate::types::bits::bit(
                    old(self).value,
                    i,
                ) && i != bit),
    {
        broadcast use group_bit_lemmas;

        self.value = self.value & !(1u64 << bit);
    }

    pub fn set_one(&mut self, bit: u8)
        requires
            bit < 64,
        ensures
            final(self).value == old(self).value | single(bit as int),
            forall|i: int|
                crate::types::bits::bit(final(self).value, i) == (crate::types::bits::bit(
                    old(self).value,
                    i,
                ) || i == bit),
    {
        broadcast use group_bit_lemmas;

        self.value = self.value | (1u64 << bit);
        proof {
            assert(self.value == old(self).value | single(bit as int));
            assert forall|i: int|
                crate::types::bits::bit(self.value, i) == (crate::types::bits::bit(
                    old(self).value,
                    i,
                ) || i == bit) by {
                crate::types::bits::lemma_bit_or(old(self).value, single(bit as int), i);
                crate::types::bits::lemma_bit_single(bit as int, i);
            }
        }
    }

    /// The positions of the set bits, lowest first.
    pub fn get_ones(&self) -> (result: Vec<u8>)
        ensures
            lists_positions(result@, self.value),
            result@.len() == popcount(self.value),
    {
        let squares = BitBoard::new(self.value).get_ones();
        let mut result: Vec<u8> = Vec::new();
        let mut k: usize = 0;
        while k < squares.len()
            invariant
                k <= squares.len(),
                result.len() == k,
                forall|j: int| 0 <= j < k ==> #[trigger] result[j] == squares[j].0,
            decreases squares.len() - k,
        {
            result.push(squares[k].as_u8());
            k = k + 1;
        }
        proof {
            assert forall|k: int| 0 <= k < result.len() implies bit(
                self.value,
                #[trigger] result[k] as int,
            ) by {
                assert(bit(self.value, squares[k].0 as int));
            }
            assert forall|i: int| bit(self.value, i) implies exists|k: int|
                0 <= k < result.len() && #[trigger] result[k] == i by {
                let k = choose|k: int| 0 <= k < squares.len() && (#[trigger] squares[k]).0 == i;
                assert(result[k] == i);
            }
        }
        result
    }

    /// The positions of the clear bits, lowest first.
    pub fn get_zeros(&self) -> (result: Vec<u8>)
        ensures
            lists_positions(result@, !self.value),
            result@.len() == popcount(!self.value),
    {
        BitMap::new(!self.value).get_ones()
    }
}

} // verus!
