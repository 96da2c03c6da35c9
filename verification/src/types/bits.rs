//! Reasoning about a 64-bit word as a set of bit positions.
//!
//! Every board in this crate is a `u64` whose bit `k` stands for square `k`.
//! The lemmas here turn the bitwise operators into statements about single
//! bits, so that the rest of the crate can argue square by square.

use vstd::prelude::*;
use vstd::std_specs::bits::{axiom_u64_trailing_zeros, u64_trailing_zeros};

verus! {

/// Whether bit `i` of `x` is set. False for every `i` outside `0..64`.
pub open spec fn bit(x: u64, i: int) -> bool {
    0 <= i < 64 && (x >> (i as u64)) & 1 == 1
}

/// The word whose only set bit is `i`.
pub open spec fn single(i: int) -> u64
    recommends
        0 <= i < 64,
{
    1u64 << (i as u64)
}

proof fn raw_or(a: u64, b: u64, i: u64)
    by (bit_vector)
    requires
        i < 64,
    ensures
        (((a | b) >> i) & 1 == 1) == (((a >> i) & 1 == 1) || ((b >> i) & 1 == 1)),
{
}

proof fn raw_and(a: u64, b: u64, i: u64)
    by (bit_vector)
    requires
        i < 64,
    ensures
        (((a & b) >> i) & 1 == 1) == (((a >> i) & 1 == 1) && ((b >> i) & 1 == 1)),
{
}

proof fn raw_xor(a: u64, b: u64, i: u64)
    by (bit_vector)
    requires
        i < 64,
    ensures
        (((a ^ b) >> i) & 1 == 1) == (((a >> i) & 1 == 1) != ((b >> i) & 1 == 1)),
{
}

proof fn raw_not(a: u64, i: u64)
    by (bit_vector)
    requires
        i < 64,
    ensures
        (((!a) >> i) & 1 == 1) == !((a >> i) & 1 == 1),
{
}

proof fn raw_single(s: u64, i: u64)
    by (bit_vector)
    requires
        i < 64,
        s < 64,
    ensures
        (((1u64 << s) >> i) & 1 == 1) == (i == s),
{
}

proof fn raw_zero(i: u64)
    by (bit_vector)
    requires
        i < 64,
    ensures
        ((0u64 >> i) & 1 == 1) == false,
{
}

proof fn raw_shl(a: u64, k: u64, i: u64)
    by (bit_vector)
    requires
        i < 64,
        k < 64,
    ensures
        (((a << k) >> i) & 1 == 1) == (i >= k && ((a >> ((i - k) as u64)) & 1 == 1)),
{
}

proof fn raw_shr(a: u64, k: u64, i: u64)
    by (bit_vector)
    requires
        i < 64,
        k < 64,
    ensures
        (((a >> k) >> i) & 1 == 1) == (i + k < 64 && ((a >> ((i + k) as u64)) & 1 == 1)),
{
}

proof fn raw_test(a: u64, i: u64)
    by (bit_vector)
    requires
        i < 64,
    ensures
        (a & (1u64 << i) != 0) == ((a >> i) & 1 == 1),
{
}

proof fn raw_differ(a: u64, b: u64)
    by (bit_vector)
    ensures
        (a ^ b == 0) == (a == b),
{
}

/// Two words combine to nothing exactly when they are the same word.
pub proof fn lemma_xor_zero(a: u64, b: u64)
    ensures
        (a ^ b == 0) == (a == b),
{
    raw_differ(a, b);
}

/// Bit `i` of `a | b`.
pub broadcast proof fn lemma_bit_or(a: u64, b: u64, i: int)
    ensures
        #[trigger] bit(a | b, i) == (bit(a, i) || bit(b, i)),
{
    if 0 <= i < 64 {
        raw_or(a, b, i as u64);
    }
}

/// Bit `i` of `a & b`.
pub broadcast proof fn lemma_bit_and(a: u64, b: u64, i: int)
    ensures
        #[trigger] bit(a & b, i) == (bit(a, i) && bit(b, i)),
{
    if 0 <= i < 64 {
        raw_and(a, b, i as u64);
    }
}

/// Bit `i` of `a ^ b`.
pub broadcast proof fn lemma_bit_xor(a: u64, b: u64, i: int)
    ensures
        #[trigger] bit(a ^ b, i) == (bit(a, i) != bit(b, i)),
{
    if 0 <= i < 64 {
        raw_xor(a, b, i as u64);
    }
}

/// Bit `i` of `!a`.
pub broadcast proof fn lemma_bit_not(a: u64, i: int)
    ensures
        #[trigger] bit(!a, i) == (0 <= i < 64 && !bit(a, i)),
{
    if 0 <= i < 64 {
        raw_not(a, i as u64);
    }
}

/// The word `single(s)` holds bit `s` and no other.
pub broadcast proof fn lemma_bit_single(s: int, i: int)
    requires
        0 <= s < 64,
    ensures
        #[trigger] bit(single(s), i) == (i == s),
{
    if 0 <= i < 64 {
        raw_single(s as u64, i as u64);
    }
}

/// The empty word holds no bit.
pub broadcast proof fn lemma_bit_zero(i: int)
    ensures
        !#[trigger] bit(0u64, i),
{
    if 0 <= i < 64 {
        raw_zero(i as u64);
    }
}

/// Bit `i` of `a << k`: the bit that stood `k` places lower.
pub broadcast proof fn lemma_bit_shl(a: u64, k: u64, i: int)
    requires
        k < 64,
    ensures
        #[trigger] bit(a << k, i) == (k <= i < 64 && bit(a, i - k)),
{
    if 0 <= i < 64 {
        raw_shl(a, k, i as u64);
    }
}

/// Bit `i` of `a >> k`: the bit that stood `k` places higher.
pub broadcast proof fn lemma_bit_shr(a: u64, k: u64, i: int)
    requires
        k < 64,
    ensures
        #[trigger] bit(a >> k, i) == (0 <= i && i + k < 64 && bit(a, i + k)),
{
    if 0 <= i < 64 {
        raw_shr(a, k, i as u64);
    }
}

/// Testing a bit by masking agrees with `bit`.
pub proof fn lemma_bit_test(a: u64, i: int)
    requires
        0 <= i < 64,
    ensures
        (a & single(i) != 0) == bit(a, i),
{
    raw_test(a, i as u64);
}

pub broadcast group group_bit_lemmas {
    lemma_bit_or,
    lemma_bit_and,
    lemma_bit_xor,
    lemma_bit_not,
    lemma_bit_single,
    lemma_bit_zero,
}

/// Two words with the same bits are the same word.
pub proof fn lemma_bit_ext(a: u64, b: u64)
    requires
        forall|i: int| 0 <= i < 64 ==> bit(a, i) == bit(b, i),
    ensures
        a == b,
{
    let x = a ^ b;
    raw_differ(a, b);
    if x != 0 {
        axiom_u64_trailing_zeros(x);
        let t = u64_trailing_zeros(x) as int;
        assert(bit(x, t));
        lemma_bit_xor(a, b, t);
        assert(bit(a, t) == bit(b, t));
    }
}

/// A word with no bit set is zero.
pub proof fn lemma_no_bits_is_zero(a: u64)
    requires
        forall|i: int| 0 <= i < 64 ==> !bit(a, i),
    ensures
        a == 0,
{
    assert forall|i: int| 0 <= i < 64 implies bit(a, i) == bit(0u64, i) by {
        lemma_bit_zero(i);
    }
    lemma_bit_ext(a, 0u64);
}

/// A non-zero word has its lowest set bit at `trailing_zeros`.
pub proof fn lemma_lowest_bit(a: u64)
    requires
        a != 0,
    ensures
        0 <= u64_trailing_zeros(a) < 64,
        bit(a, u64_trailing_zeros(a) as int),
        forall|j: int| 0 <= j < u64_trailing_zeros(a) ==> !bit(a, j),
{
    axiom_u64_trailing_zeros(a);
    assert forall|j: int| 0 <= j < u64_trailing_zeros(a) implies !bit(a, j) by {
        let ju = j as u64;
        assert((a >> ju) & 1u64 == 0u64);
    }
}

/// The number of set bits among the lowest `n` positions of `x`.
pub open spec fn count_bits(x: u64, n: int) -> nat
    decreases n,
{
    if n <= 0 {
        0
    } else {
        count_bits(x, n - 1) + if bit(x, n - 1) {
            1nat
        } else {
            0nat
        }
    }
}

/// The number of set bits of `x`.
pub open spec fn popcount(x: u64) -> nat {
    count_bits(x, 64)
}

/// A count never exceeds the number of positions looked at.
pub proof fn lemma_count_bits_bound(x: u64, n: int)
    requires
        0 <= n,
    ensures
        count_bits(x, n) <= n,
    decreases n,
{
    if n > 0 {
        lemma_count_bits_bound(x, n - 1);
    }
}

/// The count of a union of disjoint words is the sum of their counts.
pub proof fn lemma_count_bits_disjoint_or(a: u64, b: u64, n: int)
    requires
        a & b == 0,
    ensures
        count_bits(a | b, n) == count_bits(a, n) + count_bits(b, n),
    decreases n,
{
    if n > 0 {
        lemma_count_bits_disjoint_or(a, b, n - 1);
        lemma_bit_or(a, b, n - 1);
        lemma_bit_and(a, b, n - 1);
        lemma_bit_zero(n - 1);
    }
}

/// Clearing a set bit at position `s` lowers the count over `n > s` by one
/// and leaves the count over `n <= s` alone.
pub proof fn lemma_count_bits_clear(x: u64, s: int, n: int)
    requires
        0 <= s < 64,
        bit(x, s),
    ensures
        count_bits(x & !single(s), n) + (if n > s {
            1nat
        } else {
            0nat
        }) == count_bits(x, n),
    decreases n,
{
    if n > 0 {
        lemma_count_bits_clear(x, s, n - 1);
        lemma_bit_and(x, !single(s), n - 1);
        lemma_bit_not(single(s), n - 1);
        lemma_bit_single(s, n - 1);
    }
}

/// Only the empty word has no set bit.
pub proof fn lemma_popcount_zero(x: u64)
    ensures
        popcount(x) == 0 <==> x == 0,
{
    if x == 0 {
        assert forall|i: int| 0 <= i < 64 implies bit(x, i) == bit(0u64, i) by {}
        lemma_count_zero_word(64);
    } else {
        lemma_lowest_bit(x);
        lemma_count_positive(x, u64_trailing_zeros(x) as int, 64);
    }
}

proof fn lemma_count_zero_word(n: int)
    ensures
        count_bits(0u64, n) == 0,
    decreases n,
{
    if n > 0 {
        lemma_count_zero_word(n - 1);
        lemma_bit_zero(n - 1);
    }
}

/// A set bit below `n` makes the count over `n` positive.
pub proof fn lemma_count_positive(x: u64, s: int, n: int)
    requires
        0 <= s < n,
        bit(x, s),
    ensures
        count_bits(x, n) >= 1,
    decreases n,
{
    if n - 1 > s {
        lemma_count_positive(x, s, n - 1);
    }
}

/// The word that holds, among the lowest `n` positions, exactly those that
/// satisfy `pred`.
pub open spec fn board_below(pred: spec_fn(int) -> bool, n: int) -> u64
    decreases n,
{
    if n <= 0 {
        0
    } else {
        board_below(pred, n - 1) | if pred(n - 1) {
            single(n - 1)
        } else {
            0
        }
    }
}

/// The word that holds exactly the positions that satisfy `pred`.
pub open spec fn board_of(pred: spec_fn(int) -> bool) -> u64 {
    board_below(pred, 64)
}

/// The bits of `board_below`.
pub proof fn lemma_board_below(pred: spec_fn(int) -> bool, n: int, t: int)
    requires
        0 <= n <= 64,
    ensures
        bit(board_below(pred, n), t) == (0 <= t < n && pred(t)),
    decreases n,
{
    if n > 0 {
        lemma_board_below(pred, n - 1, t);
        let last: u64 = if pred(n - 1) {
            single(n - 1)
        } else {
            0
        };
        lemma_bit_or(board_below(pred, n - 1), last, t);
        lemma_bit_single(n - 1, t);
        lemma_bit_zero(t);
    } else {
        lemma_bit_zero(t);
    }
}

/// The bits of `board_of`.
pub proof fn lemma_board_of(pred: spec_fn(int) -> bool, t: int)
    ensures
        bit(board_of(pred), t) == (0 <= t < 64 && pred(t)),
{
    lemma_board_below(pred, 64, t);
}

/// A word whose bits are those that satisfy `pred` is `board_of(pred)`.
pub proof fn lemma_board_of_unique(pred: spec_fn(int) -> bool, x: u64)
    requires
        forall|t: int| 0 <= t < 64 ==> bit(x, t) == pred(t),
    ensures
        x == board_of(pred),
{
    assert forall|t: int| 0 <= t < 64 implies bit(x, t) == bit(board_of(pred), t) by {
        lemma_board_of(pred, t);
    }
    lemma_bit_ext(x, board_of(pred));
}

proof fn raw_small(x: u64, n: u64)
    by (bit_vector)
    requires
        n < 64,
        x >> n == 0,
    ensures
        x < (1u64 << n),
{
}

/// A word with no bit at or above position `n` is below `2^n`.
pub proof fn lemma_high_bits_clear(x: u64, n: int)
    requires
        0 <= n < 64,
        forall|j: int| n <= j < 64 ==> !bit(x, j),
    ensures
        x < (1u64 << (n as u64)),
{
    let y = x >> (n as u64);
    assert forall|i: int| 0 <= i < 64 implies !bit(y, i) by {
        lemma_bit_shr(x, n as u64, i);
    }
    lemma_no_bits_is_zero(y);
    raw_small(x, n as u64);
}

proof fn raw_pow_bound(n: u64)
    by (bit_vector)
    requires
        n <= 16,
    ensures
        1 <= (1u64 << n) <= 65536,
{
}

/// Two to a power of at most 16 is at most 65536.
pub proof fn lemma_pow_bound(n: int)
    requires
        0 <= n <= 16,
    ensures
        1 <= (1u64 << (n as u64)) <= 65536,
{
    raw_pow_bound(n as u64);
}

/// `b` holds no position that `mask` lacks.
pub open spec fn subset_of(b: u64, mask: u64) -> bool {
    b & mask == b
}

/// `subset_of`, bit by bit.
pub proof fn lemma_subset_bits(b: u64, mask: u64)
    ensures
        subset_of(b, mask) <==> (forall|t: int| bit(b, t) ==> bit(mask, t)),
{
    if subset_of(b, mask) {
        assert forall|t: int| bit(b, t) implies bit(mask, t) by {
            lemma_bit_and(b, mask, t);
        }
    }
    if forall|t: int| bit(b, t) ==> bit(mask, t) {
        assert forall|t: int| 0 <= t < 64 implies bit(b & mask, t) == bit(b, t) by {
            lemma_bit_and(b, mask, t);
        }
        lemma_bit_ext(b & mask, b);
    }
}

/// Predicates that agree on the board give the same word.
pub proof fn lemma_board_of_agree(p: spec_fn(int) -> bool, q: spec_fn(int) -> bool)
    requires
        forall|t: int| 0 <= t < 64 ==> #[trigger] p(t) == q(t),
    ensures
        board_of(p) == board_of(q),
{
    assert forall|t: int| 0 <= t < 64 implies bit(board_of(p), t) == q(t) by {
        lemma_board_of(p, t);
    }
    lemma_board_of_unique(q, board_of(p));
}

proof fn raw_xor_algebra(a: u64, b: u64, c: u64, d: u64)
    by (bit_vector)
    ensures
        (a ^ b ^ c) ^ d == (a ^ d) ^ b ^ c,
        (a ^ b) ^ b ^ c == a ^ c,
        a ^ 0 == a,
        a ^ a == 0,
        a ^ b == b ^ a,
        (a ^ b == c ^ d) ==> (a == c ^ d ^ b),
{
}

/// Rearrangements of exclusive-or that the key updates rest on.
pub proof fn lemma_xor_algebra(a: u64, b: u64, c: u64, d: u64)
    ensures
        (a ^ b ^ c) ^ d == (a ^ d) ^ b ^ c,
        (a ^ b) ^ b ^ c == a ^ c,
        a ^ 0 == a,
        a ^ a == 0,
        a ^ b == b ^ a,
        (a ^ b == c ^ d) ==> (a == c ^ d ^ b),
{
    raw_xor_algebra(a, b, c, d);
}

proof fn raw_xor_delta(s: u64, c: u64, e: u64, t: u64, d: u64, z: u64)
    by (bit_vector)
    ensures
        (s ^ d) ^ c ^ e ^ t == (s ^ c ^ e ^ t) ^ d,
        s ^ (c ^ d) ^ e ^ t == (s ^ c ^ e ^ t) ^ d,
        s ^ c ^ (e ^ d) ^ t == (s ^ c ^ e ^ t) ^ d,
        s ^ c ^ e ^ (t ^ d) == (s ^ c ^ e ^ t) ^ d,
        (z ^ d) ^ ((s ^ c ^ e ^ t) ^ d) == z ^ (s ^ c ^ e ^ t),
{
}

/// A change `d` to one of four combined parts changes the whole by `d`,
/// and a key that takes the same change keeps its distance from the whole.
pub proof fn lemma_xor_delta(s: u64, c: u64, e: u64, t: u64, d: u64, z: u64)
    ensures
        (s ^ d) ^ c ^ e ^ t == (s ^ c ^ e ^ t) ^ d,
        s ^ (c ^ d) ^ e ^ t == (s ^ c ^ e ^ t) ^ d,
        s ^ c ^ (e ^ d) ^ t == (s ^ c ^ e ^ t) ^ d,
        s ^ c ^ e ^ (t ^ d) == (s ^ c ^ e ^ t) ^ d,
        (z ^ d) ^ ((s ^ c ^ e ^ t) ^ d) == z ^ (s ^ c ^ e ^ t),
{
    raw_xor_delta(s, c, e, t, d, z);
}

} // verus!
