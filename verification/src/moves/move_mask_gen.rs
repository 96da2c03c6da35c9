//! The attack tables: where a king and a knight reach from each square,
//! and, behind a magic index, where a rook and a bishop reach from each
//! square for every arrangement of blockers.

use vstd::prelude::*;
use crate::magic::magic_generation::Magic;
use crate::magic::magics::spec_magic;
use crate::magic::magics::spec_rook_magic;
use crate::magic::magics::spec_bishop_magic;
use crate::magic::magics::rook_magic;
use crate::magic::magics::bishop_magic;
use crate::magic::magic_generation::MIN_MAGIC_SHIFT;
use crate::magic::magic_generation::spec_table_size;
use crate::types::bitboard::BitBoard;
use crate::types::bits::bit;
use crate::types::bits::lemma_bit_and;
use crate::types::bits::board_of;
use crate::types::bits::lemma_board_of;
use crate::types::bits::lemma_board_of_unique;
use crate::types::bits::lemma_bit_zero;
use crate::types::bits::popcount;
use crate::types::bits::subset_of;
use crate::types::bits::lemma_subset_bits;
use crate::types::bits::lemma_high_bits_clear;
use crate::types::bits::lemma_pow_bound;
use crate::types::bits::lemma_board_of_agree;
use crate::types::bitboard::spec_ones;
use crate::types::bitboard::lists_ones;
use crate::types::bitboard::lemma_spec_ones;
use crate::types::piece::Pieces;
use crate::types::square::Square;
use crate::moves::geometry::on_board;
use crate::moves::geometry::rank_of;
use crate::moves::geometry::file_of;
use crate::moves::geometry::dir_dr;
use crate::moves::geometry::dir_df;
use crate::moves::geometry::ray_rank;
use crate::moves::geometry::ray_file;
use crate::moves::geometry::ray_on_board;
use crate::moves::geometry::ray_square;
use crate::moves::geometry::ray_clear;
use crate::moves::geometry::ray_attacks;
use crate::moves::geometry::ray_inner;
use crate::moves::geometry::slider_attacks;
use crate::moves::geometry::relevant_blocker;
use crate::moves::geometry::king_step;
use crate::moves::geometry::knight_step;
use crate::moves::geometry::lemma_ray_prefix;

verus! {

/// The squares that a slider on `a` attacks when `occ` blocks, as a board.
pub open spec fn attack_board(bishop: bool, occ: u64, a: int) -> u64 {
    board_of(|t: int| slider_attacks(bishop, occ, a, t))
}

/// The relevant blockers of a slider on `a`, as a board.
pub open spec fn relevant_board(bishop: bool, a: int) -> u64 {
    board_of(|t: int| relevant_blocker(bishop, a, t))
}

/// The squares one king step from `a`, as a board.
pub open spec fn king_board(a: int) -> u64 {
    board_of(|t: int| king_step(a, t))
}

/// The squares one knight jump from `a`, as a board.
pub open spec fn knight_board(a: int) -> u64 {
    board_of(|t: int| knight_step(a, t))
}

/// The change of rank in one step of direction `dir`.
fn dir_rank_step(dir: u8) -> (d: i8)
    requires
        dir < 8,
    ensures
        d == dir_dr(dir as int),
{
    if dir == 0 || dir == 4 || dir == 6 {
        1
    } else if dir == 1 || dir == 5 || dir == 7 {
        -1
    } else {
        0
    }
}

/// The change of file in one step of direction `dir`.
fn dir_file_step(dir: u8) -> (d: i8)
    requires
        dir < 8,
    ensures
        d == dir_df(dir as int),
{
    if dir == 2 || dir == 4 || dir == 7 {
        1
    } else if dir == 3 || dir == 5 || dir == 6 {
        -1
    } else {
        0
    }
}

/// The squares that a slider on `square` reaches along direction `dir`
/// when `blocker` blocks: every square up to and with the first blocker.
pub fn ray_attack(square: &Square, blocker: &BitBoard, dir: u8) -> (r: BitBoard)
    requires
        square.on_board(),
        dir < 8,
    ensures
        forall|t: int| r.has(t) == ray_attacks(blocker.0, square.0 as int, dir as int, t),
{
    let dr = dir_rank_step(dir);
    let df = dir_file_step(dir);
    let ghost a = square.0 as int;
    let ghost d = dir as int;
    let ghost occ = blocker.0;
    let mut rank: i8 = square.get_rank() as i8;
    let mut file: i8 = square.get_file() as i8;
    let mut acc = BitBoard::zeros();
    let mut n: u8 = 1;
    let mut open: bool = true;
    proof {
        assert forall|t: int| !acc.has(t) by {
            lemma_bit_zero(t);
        }
    }
    while open && n < 8
        invariant
            on_board(a),
            0 <= d < 8,
            a == square.0,
            d == dir,
            occ == blocker.0,
            dr == dir_dr(d),
            df == dir_df(d),
            1 <= n <= 8,
            rank == ray_rank(a, d, n - 1),
            file == ray_file(a, d, n - 1),
            ray_on_board(a, d, n - 1),
            forall|t: int|
                acc.has(t) == exists|k: int| 1 <= k < n && #[trigger] ray_square(a, d, k) == t,
            forall|k: int| 1 <= k < n - 1 ==> !bit(occ, #[trigger] ray_square(a, d, k)),
            open && n >= 2 ==> !bit(occ, ray_square(a, d, n - 1)),
            !open ==> !ray_on_board(a, d, n as int) || (n >= 2 && bit(occ, ray_square(a, d, n - 1))),
        decreases
            2 * (8 - n) + if open {
                1int
            } else {
                0int
            },
    {
        let next_rank: i8 = rank + dr;
        let next_file: i8 = file + df;
        if next_rank < 0 || next_rank > 7 || next_file < 0 || next_file > 7 {
            open = false;
        } else {
            let target = Square::new((next_rank * 8 + next_file) as u8);
            let ghost before = acc;
            acc.set_one(&target);
            let blocked = blocker.read_square(&target);
            if blocked {
                open = false;
            }
            proof {
                assert(target.0 == ray_square(a, d, n as int));
                assert(blocked == bit(occ, ray_square(a, d, n as int)));
                assert(ray_on_board(a, d, n as int));
                assert forall|t: int|
                    acc.has(t) == exists|k: int|
                        1 <= k < n + 1 && #[trigger] ray_square(a, d, k) == t by {
                    if before.has(t) {
                        let k = choose|k: int| 1 <= k < n && #[trigger] ray_square(a, d, k) == t;
                        assert(1 <= k < n + 1 && ray_square(a, d, k) == t);
                    }
                    if t == target.0 {
                        assert(ray_square(a, d, n as int) == t);
                    }
                }
            }
            rank = next_rank;
            file = next_file;
            n = n + 1;
        }
    }
    proof {
        assert forall|t: int| acc.has(t) == ray_attacks(occ, a, d, t) by {
            if acc.has(t) {
                let k = choose|k: int| 1 <= k < n && #[trigger] ray_square(a, d, k) == t;
                lemma_ray_prefix(a, d, n - 1, k);
                assert(ray_clear(occ, a, d, k));
            }
            if ray_attacks(occ, a, d, t) {
                let m = choose|m: int|
                    1 <= m < 8 && ray_on_board(a, d, m) && #[trigger] ray_square(a, d, m) == t
                        && ray_clear(occ, a, d, m);
                if m >= n {
                    lemma_ray_prefix(a, d, m, n as int);
                    if n >= 2 {
                        assert(!bit(occ, ray_square(a, d, n - 1)));
                    }
                    assert(false);
                }
            }
        }
    }
    acc
}

/// The squares of the ray from `square` in direction `dir` but its last.
pub fn ray_inner_squares(square: &Square, dir: u8) -> (r: BitBoard)
    requires
        square.on_board(),
        dir < 8,
    ensures
        forall|t: int| r.has(t) == ray_inner(square.0 as int, dir as int, t),
{
    let dr = dir_rank_step(dir);
    let df = dir_file_step(dir);
    let ghost a = square.0 as int;
    let ghost d = dir as int;
    let mut rank: i8 = square.get_rank() as i8;
    let mut file: i8 = square.get_file() as i8;
    let mut acc = BitBoard::zeros();
    let mut n: u8 = 1;
    let mut open: bool = true;
    proof {
        assert forall|t: int| !acc.has(t) by {
            lemma_bit_zero(t);
        }
    }
    while open && n < 7
        invariant
            on_board(a),
            0 <= d < 8,
            dr == dir_dr(d),
            df == dir_df(d),
            1 <= n <= 7,
            rank == ray_rank(a, d, n - 1),
            file == ray_file(a, d, n - 1),
            ray_on_board(a, d, n - 1),
            n >= 2 ==> ray_on_board(a, d, n as int),
            forall|t: int|
                acc.has(t) == exists|k: int| 1 <= k < n && #[trigger] ray_square(a, d, k) == t,
            !open ==> !ray_on_board(a, d, n + 1),
        decreases
            2 * (8 - n) + if open {
                1int
            } else {
                0int
            },
    {
        let next_rank: i8 = rank + dr;
        let next_file: i8 = file + df;
        let after_rank: i8 = next_rank + dr;
        let after_file: i8 = next_file + df;
        if after_rank < 0 || after_rank > 7 || after_file < 0 || after_file > 7 {
            open = false;
        } else {
            proof {
                lemma_ray_prefix(a, d, n + 1, n as int);
            }
            let target = Square::new((next_rank * 8 + next_file) as u8);
            let ghost before = acc;
            acc.set_one(&target);
            proof {
                assert(target.0 == ray_square(a, d, n as int));
                assert forall|t: int|
                    acc.has(t) == exists|k: int|
                        1 <= k < n + 1 && #[trigger] ray_square(a, d, k) == t by {
                    if before.has(t) {
                        let k = choose|k: int| 1 <= k < n && #[trigger] ray_square(a, d, k) == t;
                        assert(1 <= k < n + 1 && ray_square(a, d, k) == t);
                    }
                    if t == target.0 {
                        assert(ray_square(a, d, n as int) == t);
                    }
                }
            }
            rank = next_rank;
            file = next_file;
            n = n + 1;
        }
    }
    proof {
        assert forall|t: int| acc.has(t) == ray_inner(a, d, t) by {
            if acc.has(t) {
                let k = choose|k: int| 1 <= k < n && #[trigger] ray_square(a, d, k) == t;
                if n >= 2 {
                    lemma_ray_prefix(a, d, n as int, k + 1);
                }
            }
            if ray_inner(a, d, t) {
                let m = choose|m: int|
                    1 <= m < 7 && ray_on_board(a, d, m + 1) && #[trigger] ray_square(a, d, m) == t;
                if m >= n {
                    lemma_ray_prefix(a, d, m + 1, n + 1);
                    assert(false);
                }
            }
        }
    }
    acc
}

/// The squares that the slider `piece` on `square` attacks when `blocker`
/// blocks.
pub fn slider_attack(square: &Square, blocker: &BitBoard, piece: usize) -> (r: BitBoard)
    requires
        square.on_board(),
        piece == Pieces::ROOK || piece == Pieces::BISHOP,
    ensures
        forall|t: int|
            r.has(t) == slider_attacks(piece == Pieces::BISHOP, blocker.0, square.0 as int, t),
        r.0 == attack_board(piece == Pieces::BISHOP, blocker.0, square.0 as int),
{
    let base: u8 = if piece == Pieces::BISHOP {
        4
    } else {
        0
    };
    let r0 = ray_attack(square, blocker, base);
    let r1 = ray_attack(square, blocker, base + 1);
    let r2 = ray_attack(square, blocker, base + 2);
    let r3 = ray_attack(square, blocker, base + 3);
    let r = BitBoard(r0.0 | r1.0 | r2.0 | r3.0);
    proof {
        let bishop = piece == Pieces::BISHOP;
        let occ = blocker.0;
        let a = square.0 as int;
        assert forall|t: int| r.has(t) == slider_attacks(bishop, occ, a, t) by {
            crate::types::bits::lemma_bit_or(r0.0 | r1.0 | r2.0, r3.0, t);
            crate::types::bits::lemma_bit_or(r0.0 | r1.0, r2.0, t);
            crate::types::bits::lemma_bit_or(r0.0, r1.0, t);
            assert(r.has(t) == (r0.has(t) || r1.has(t) || r2.has(t) || r3.has(t)));
        }
        let pred = |t: int| slider_attacks(bishop, occ, a, t);
        assert forall|t: int| 0 <= t < 64 implies bit(r.0, t) == pred(t) by {
            assert(r.has(t) == slider_attacks(bishop, occ, a, t));
        }
        lemma_board_of_unique(pred, r.0);
    }
    r
}

/// For each board of `blockers`, the squares that the slider `piece` on
/// `square` attacks when that board blocks.
pub fn generate_slider_moves_from_blockers(
    square: &Square,
    blockers: &[BitBoard],
    piece: usize,
) -> (result: Vec<BitBoard>)
    requires
        square.on_board(),
        piece == Pieces::ROOK || piece == Pieces::BISHOP,
    ensures
        result.len() == blockers.len(),
        forall|i: int|
            0 <= i < result.len() ==> (#[trigger] result[i]).0 == attack_board(
                piece == Pieces::BISHOP,
                blockers[i].0,
                square.0 as int,
            ),
{
    let mut legal_moves_vec: Vec<BitBoard> = Vec::with_capacity(blockers.len());
    let mut i: usize = 0;
    while i < blockers.len()
        invariant
            square.on_board(),
            piece == Pieces::ROOK || piece == Pieces::BISHOP,
            i <= blockers.len(),
            legal_moves_vec.len() == i,
            forall|j: int|
                0 <= j < i ==> (#[trigger] legal_moves_vec[j]).0 == attack_board(
                    piece == Pieces::BISHOP,
                    blockers[j].0,
                    square.0 as int,
                ),
        decreases blockers.len() - i,
    {
        legal_moves_vec.push(slider_attack(square, &blockers[i], piece));
        i = i + 1;
    }
    legal_moves_vec
}

/// For each board of `blockers`, the squares that a bishop on `square`
/// attacks when that board blocks.
pub fn generate_bishop_legal_moves_from_blockers(square: &Square, blockers: &[BitBoard]) -> (result:
    Vec<BitBoard>)
    requires
        square.on_board(),
    ensures
        result.len() == blockers.len(),
        forall|i: int|
            0 <= i < result.len() ==> (#[trigger] result[i]).0 == attack_board(
                true,
                blockers[i].0,
                square.0 as int,
            ),
{
    generate_slider_moves_from_blockers(square, blockers, Pieces::BISHOP)
}

/// The squares a rook on `square` attacks on an empty board.
pub fn generate_rook_moves_mask(square: &Square) -> (r: BitBoard)
    requires
        square.on_board(),
    ensures
        r.0 == attack_board(false, 0, square.0 as int),
{
    slider_attack(square, &BitBoard::zeros(), Pieces::ROOK)
}

/// The squares a bishop on `square` attacks on an empty board.
pub fn generate_bishop_move_mask(square: &Square) -> (r: BitBoard)
    requires
        square.on_board(),
    ensures
        r.0 == attack_board(true, 0, square.0 as int),
{
    slider_attack(square, &BitBoard::zeros(), Pieces::BISHOP)
}

/// The squares whose occupancy decides what a slider on `square` attacks:
/// those of a bishop for `Pieces::BISHOP`, those of a rook for any other
/// `piece`. They are the squares of its rays but the last of each.
pub fn generate_relevant_blockers(square: &Square, piece: usize) -> (r: BitBoard)
    requires
        square.on_board(),
    ensures
        forall|t: int| r.has(t) == relevant_blocker(piece == Pieces::BISHOP, square.0 as int, t),
        r.0 == relevant_board(piece == Pieces::BISHOP, square.0 as int),
{
    let base: u8 = if piece == Pieces::BISHOP {
        4
    } else {
        0
    };
    let r0 = ray_inner_squares(square, base);
    let r1 = ray_inner_squares(square, base + 1);
    let r2 = ray_inner_squares(square, base + 2);
    let r3 = ray_inner_squares(square, base + 3);
    let r = BitBoard(r0.0 | r1.0 | r2.0 | r3.0);
    proof {
        let bishop = piece == Pieces::BISHOP;
        let a = square.0 as int;
        assert forall|t: int| r.has(t) == relevant_blocker(bishop, a, t) by {
            crate::types::bits::lemma_bit_or(r0.0 | r1.0 | r2.0, r3.0, t);
            crate::types::bits::lemma_bit_or(r0.0 | r1.0, r2.0, t);
            crate::types::bits::lemma_bit_or(r0.0, r1.0, t);
            assert(r.has(t) == (r0.has(t) || r1.has(t) || r2.has(t) || r3.has(t)));
        }
        let pred = |t: int| relevant_blocker(bishop, a, t);
        assert forall|t: int| 0 <= t < 64 implies bit(r.0, t) == pred(t) by {
            assert(r.has(t) == relevant_blocker(bishop, a, t));
        }
        lemma_board_of_unique(pred, r.0);
    }
    r
}

/// The board that pattern number `pattern` picks out of `squares`: it
/// holds the `j`-th of them exactly when bit `j` of the pattern is set.
pub open spec fn pattern_board(pattern: u64, squares: Seq<Square>) -> u64 {
    board_of(
        |t: int| exists|j: int| 0 <= j < squares.len() && bit(pattern, j) && (#[trigger] squares[j]).0 == t,
    )
}

/// The pattern that picks the board `b` out of `squares`.
pub open spec fn board_pattern(b: u64, squares: Seq<Square>) -> u64 {
    board_of(|j: int| 0 <= j < squares.len() && bit(b, squares[j].0 as int))
}

/// Every board inside `mask` is picked out of the squares of `mask` by
/// some pattern below `2^n`, `n` the number of those squares.
pub proof fn lemma_pattern_complete(b: u64, mask: u64)
    requires
        subset_of(b, mask),
        popcount(mask) <= 16,
    ensures
        board_pattern(b, spec_ones(mask)) < (1u64 << (popcount(mask) as u64)),
        pattern_board(board_pattern(b, spec_ones(mask)), spec_ones(mask)) == b,
{
    let squares = spec_ones(mask);
    lemma_spec_ones(mask);
    let n = squares.len() as int;
    let p = board_pattern(b, squares);
    let pick = |j: int| 0 <= j < squares.len() && bit(b, squares[j].0 as int);
    assert forall|j: int| n <= j < 64 implies !bit(p, j) by {
        lemma_board_of(pick, j);
    }
    lemma_high_bits_clear(p, n);
    let back = |t: int| exists|j: int| 0 <= j < squares.len() && bit(p, j) && (#[trigger] squares[j]).0 == t;
    lemma_subset_bits(b, mask);
    assert forall|t: int| 0 <= t < 64 implies bit(b, t) == back(t) by {
        if bit(b, t) {
            assert(bit(mask, t));
            let j = choose|j: int| 0 <= j < squares.len() && (#[trigger] squares[j]).0 == t;
            lemma_board_of(pick, j);
            assert(bit(p, j));
        }
        if back(t) {
            let j = choose|j: int| 0 <= j < squares.len() && bit(p, j) && (#[trigger] squares[j]).0 == t;
            lemma_board_of(pick, j);
        }
    }
    lemma_board_of_unique(back, b);
}

/// Every board that a pattern picks out of the squares of `mask` lies
/// inside `mask`.
pub proof fn lemma_pattern_inside(pattern: u64, mask: u64)
    ensures
        subset_of(pattern_board(pattern, spec_ones(mask)), mask),
{
    let squares = spec_ones(mask);
    lemma_spec_ones(mask);
    let b = pattern_board(pattern, squares);
    let back = |t: int| exists|j: int| 0 <= j < squares.len() && bit(pattern, j) && (#[trigger] squares[j]).0 == t;
    assert forall|t: int| bit(b, t) implies bit(mask, t) by {
        lemma_board_of(back, t);
        let j = choose|j: int| 0 <= j < squares.len() && bit(pattern, j) && (#[trigger] squares[j]).0 == t;
        assert(bit(mask, squares[j].0 as int));
    }
    lemma_subset_bits(b, mask);
}

/// Every board that lies inside `bitboard`, one for each pattern of its
/// squares, in the order of the patterns.
pub fn create_blocker_boards(bitboard: &BitBoard) -> (result: Vec<BitBoard>)
    requires
        popcount(bitboard.0) <= 16,
    ensures
        result.len() == (1u64 << (popcount(bitboard.0) as u64)),
        forall|p: int|
            0 <= p < result.len() ==> (#[trigger] result[p]).0 == pattern_board(
                p as u64,
                spec_ones(bitboard.0),
            ),
        forall|p: int| 0 <= p < result.len() ==> subset_of((#[trigger] result[p]).0, bitboard.0),
        forall|b: u64|
            subset_of(b, bitboard.0) ==> 0 <= board_pattern(b, spec_ones(bitboard.0)) < result.len()
                && result[board_pattern(b, spec_ones(bitboard.0)) as int].0 == b,
{
    let set_bits_indices = bitboard.get_ones();
    let n = set_bits_indices.len();
    proof {
        lemma_pow_bound(n as int);
    }
    let n_patterns: usize = (1u64 << (n as u64)) as usize;
    let mut blocker_boards: Vec<BitBoard> = Vec::with_capacity(n_patterns);
    let ghost squares = set_bits_indices@;
    let mut pattern_i: usize = 0;
    while pattern_i < n_patterns
        invariant
            squares == set_bits_indices@,
            squares == spec_ones(bitboard.0),
            lists_ones(squares, bitboard.0),
            n == squares.len(),
            n <= 16,
            pattern_i <= n_patterns <= 65536,
            blocker_boards.len() == pattern_i,
            forall|p: int|
                0 <= p < pattern_i ==> (#[trigger] blocker_boards[p]).0 == pattern_board(
                    p as u64,
                    squares,
                ),
        decreases n_patterns - pattern_i,
    {
        let pattern: u64 = pattern_i as u64;
        let mut new_bitboard = BitBoard::zeros();
        let mut bit_i: usize = 0;
        proof {
            assert forall|t: int| !new_bitboard.has(t) by {
                lemma_bit_zero(t);
            }
        }
        while bit_i < n
            invariant
                squares == set_bits_indices@,
                lists_ones(squares, bitboard.0),
                n == squares.len(),
                n <= 16,
                bit_i <= n,
                forall|t: int|
                    new_bitboard.has(t) == exists|j: int|
                        0 <= j < bit_i && bit(pattern, j) && (#[trigger] squares[j]).0 == t,
            decreases n - bit_i,
        {
            let new_square = set_bits_indices[bit_i];
            let ghost before = new_bitboard;
            proof {
                assert(bit(bitboard.0, squares[bit_i as int].0 as int));
            }
            if (pattern >> (bit_i as u64)) & 1 == 1 {
                new_bitboard.set_one(&new_square);
            }
            proof {
                assert forall|t: int|
                    new_bitboard.has(t) == exists|j: int|
                        0 <= j < bit_i + 1 && bit(pattern, j) && (#[trigger] squares[j]).0 == t by {
                    if before.has(t) {
                        let j = choose|j: int|
                            0 <= j < bit_i && bit(pattern, j) && (#[trigger] squares[j]).0 == t;
                        assert(0 <= j < bit_i + 1 && bit(pattern, j) && squares[j].0 == t);
                    }
                    if bit(pattern, bit_i as int) && t == new_square.0 {
                        assert(squares[bit_i as int].0 == t);
                    }
                }
            }
            bit_i = bit_i + 1;
        }
        proof {
            let back = |t: int|
                exists|j: int| 0 <= j < squares.len() && bit(pattern, j) && (#[trigger] squares[j]).0 == t;
            assert forall|t: int| 0 <= t < 64 implies bit(new_bitboard.0, t) == back(t) by {
                assert(new_bitboard.has(t) == bit(new_bitboard.0, t));
            }
            lemma_board_of_unique(back, new_bitboard.0);
        }
        blocker_boards.push(new_bitboard);
        pattern_i = pattern_i + 1;
    }
    proof {
        assert forall|p: int| 0 <= p < blocker_boards.len() implies subset_of(
            (#[trigger] blocker_boards[p]).0,
            bitboard.0,
        ) by {
            lemma_pattern_inside(p as u64, bitboard.0);
        }
        assert forall|b: u64| subset_of(b, bitboard.0) implies 0 <= board_pattern(b, squares)
            < blocker_boards.len() && blocker_boards[board_pattern(b, squares) as int].0 == b by {
            lemma_pattern_complete(b, bitboard.0);
        }
    }
    blocker_boards
}

/// The boards inside `mask` that `magic` sends to one slot all give the
/// slider on `a` the same attacks.
pub open spec fn collision_free(bishop: bool, a: int, magic: Magic) -> bool {
    forall|b1: u64, b2: u64|
        subset_of(b1, magic.mask.0) && subset_of(b2, magic.mask.0) && #[trigger] magic.spec_index(b1)
            == #[trigger] magic.spec_index(b2) ==> attack_board(bishop, b1, a) == attack_board(
            bishop,
            b2,
            a,
        )
}

/// `magic` can address an attack table of the slider on `a`: its shift is
/// in range, its mask is the slider's relevant blockers, at most 16 of
/// them, and no two boards with different attacks share a slot.
pub open spec fn magic_usable(bishop: bool, a: int, magic: Magic) -> bool {
    &&& magic.wf()
    &&& magic.mask.0 == relevant_board(bishop, a)
    &&& popcount(magic.mask.0) <= 16
    &&& collision_free(bishop, a, magic)
}

/// `table` answers, through `magic`, what the slider on `a` attacks for
/// every occupancy of the board.
pub open spec fn slider_table_ok(table: Seq<BitBoard>, magic: Magic, bishop: bool, a: int) -> bool {
    &&& magic.wf()
    &&& magic.mask.0 == relevant_board(bishop, a)
    &&& popcount(magic.mask.0) <= 16
    &&& table.len() == spec_table_size(magic.shift)
    &&& forall|occ: u64| (#[trigger] table[magic.spec_index(occ)]).0 == attack_board(bishop, occ, a)
}

/// A table that answers every occupancy shows its magic to be usable.
pub proof fn lemma_table_shows_usable(table: Seq<BitBoard>, magic: Magic, bishop: bool, a: int)
    requires
        slider_table_ok(table, magic, bishop, a),
    ensures
        magic_usable(bishop, a, magic),
{
    assert forall|b1: u64, b2: u64|
        subset_of(b1, magic.mask.0) && subset_of(b2, magic.mask.0) && #[trigger] magic.spec_index(b1)
            == #[trigger] magic.spec_index(b2) implies attack_board(bishop, b1, a) == attack_board(
        bishop,
        b2,
        a,
    ) by {
        assert(table[magic.spec_index(b1)].0 == attack_board(bishop, b1, a));
        assert(table[magic.spec_index(b2)].0 == attack_board(bishop, b2, a));
    }
}

/// The attacks of a slider depend on the occupancy only through its
/// relevant blockers.
pub proof fn lemma_attack_board_masked(bishop: bool, occ: u64, a: int)
    requires
        on_board(a),
    ensures
        attack_board(bishop, occ & relevant_board(bishop, a), a) == attack_board(bishop, occ, a),
{
    let mask = relevant_board(bishop, a);
    let masked = occ & mask;
    assert forall|s: int| relevant_blocker(bishop, a, s) implies bit(masked, s) == bit(occ, s) by {
        crate::types::bits::lemma_bit_and(occ, mask, s);
        lemma_board_of(|t: int| relevant_blocker(bishop, a, t), s);
        assert(on_board(s)) by {
            lemma_relevant_on_board(bishop, a, s);
        }
    }
    let p = |t: int| slider_attacks(bishop, masked, a, t);
    let q = |t: int| slider_attacks(bishop, occ, a, t);
    assert forall|t: int| 0 <= t < 64 implies #[trigger] p(t) == q(t) by {
        crate::moves::geometry::lemma_slider_attacks_relevant(bishop, masked, occ, a, t);
    }
    lemma_board_of_agree(p, q);
}

/// A relevant blocker is a square of the board.
pub proof fn lemma_relevant_on_board(bishop: bool, a: int, s: int)
    requires
        relevant_blocker(bishop, a, s),
    ensures
        on_board(s),
{
    let base: int = if bishop {
        4
    } else {
        0
    };
    assert forall|d: int| base <= d < base + 4 && ray_inner(a, d, s) implies on_board(s) by {
        let n = choose|n: int|
            1 <= n < 7 && ray_on_board(a, d, n + 1) && #[trigger] ray_square(a, d, n) == s;
        lemma_ray_prefix(a, d, n + 1, n);
    }
}

/// Fills the attack table of the slider `piece` on `square` that `magic`
/// addresses: for every board inside the magic's mask, the slot of that
/// board gets the board's attacks. `None` when the magic cannot address such
/// a table.
pub fn build_magic_table(square: &Square, piece: usize, magic: &Magic) -> (result: Option<
    Vec<BitBoard>,
>)
    requires
        square.on_board(),
        piece == Pieces::ROOK || piece == Pieces::BISHOP,
    ensures
        result matches Some(table) ==> slider_table_ok(
            table@,
            *magic,
            piece == Pieces::BISHOP,
            square.0 as int,
        ),
        result.is_some() == magic_usable(piece == Pieces::BISHOP, square.0 as int, *magic),
{
    let ghost bishop = piece == Pieces::BISHOP;
    let ghost a = square.0 as int;
    if magic.shift < MIN_MAGIC_SHIFT || magic.shift >= 64 {
        return None;
    }
    let relevant_blockers = generate_relevant_blockers(square, piece);
    if relevant_blockers.0 != magic.mask.0 {
        return None;
    }
    if relevant_blockers.count() > 16 {
        return None;
    }
    let blockers_mask = create_blocker_boards(&relevant_blockers);
    let legal_moves_mask = generate_slider_moves_from_blockers(
        square,
        blockers_mask.as_slice(),
        piece,
    );
    let size = magic.table_size();
    let mut output: Vec<BitBoard> = Vec::with_capacity(size);
    let mut used: Vec<bool> = Vec::with_capacity(size);
    let mut k: usize = 0;
    while k < size
        invariant
            k <= size,
            output.len() == k,
            used.len() == k,
            forall|i: int| 0 <= i < k ==> !(#[trigger] used[i]),
        decreases size - k,
    {
        output.push(BitBoard::zeros());
        used.push(false);
        k = k + 1;
    }
    let ghost mut owner: Seq<int> = Seq::new(size as nat, |i: int| 0int);
    let mut p: usize = 0;
    while p < blockers_mask.len()
        invariant
            magic.wf(),
            magic.mask.0 == relevant_board(bishop, a),
            relevant_blockers.0 == magic.mask.0,
            bishop == (piece == Pieces::BISHOP),
            a == square.0,
            on_board(a),
            size == spec_table_size(magic.shift),
            output.len() == size,
            used.len() == size,
            owner.len() == size,
            p <= blockers_mask.len(),
            legal_moves_mask.len() == blockers_mask.len(),
            forall|q: int|
                0 <= q < blockers_mask.len() ==> (#[trigger] legal_moves_mask[q]).0 == attack_board(
                    bishop,
                    blockers_mask[q].0,
                    a,
                ),
            forall|q: int|
                0 <= q < blockers_mask.len() ==> subset_of((#[trigger] blockers_mask[q]).0, magic.mask.0),
            forall|i: int|
                0 <= i < size && #[trigger] used[i] ==> 0 <= owner[i] < p && magic.spec_index(
                    blockers_mask[owner[i]].0,
                ) == i && output[i].0 == attack_board(bishop, blockers_mask[owner[i]].0, a),
            forall|q: int|
                0 <= q < p ==> used[magic.spec_index((#[trigger] blockers_mask[q]).0)]
                    && output[magic.spec_index(blockers_mask[q].0)].0 == attack_board(
                    bishop,
                    blockers_mask[q].0,
                    a,
                ),
        decreases blockers_mask.len() - p,
    {
        let blockers = blockers_mask[p];
        let legal_moves = legal_moves_mask[p];
        let index = magic.get_index(blockers);
        let ghost old_output = output@;
        let ghost old_used = used@;
        proof {
            assert forall|q: int| 0 <= q < p implies 0 <= magic.spec_index(
                (#[trigger] blockers_mask[q]).0,
            ) < size by {
                magic.lemma_index_bound(blockers_mask[q].0);
            }
        }
        if used[index] {
            if output[index].0 != legal_moves.0 {
                proof {
                    let b1 = blockers_mask[owner[index as int]].0;
                    let b2 = blockers.0;
                    assert(subset_of(b1, magic.mask.0) && subset_of(b2, magic.mask.0));
                    assert(magic.spec_index(b1) == magic.spec_index(b2));
                    assert(attack_board(bishop, b1, a) != attack_board(bishop, b2, a));
                    assert(!collision_free(bishop, a, *magic));
                }
                return None;
            }
        } else {
            output[index] = legal_moves;
            used[index] = true;
            proof {
                owner = owner.update(index as int, p as int);
            }
        }
        proof {
            assert forall|q: int| 0 <= q < p + 1 implies used[magic.spec_index(
                (#[trigger] blockers_mask[q]).0,
            )] && output[magic.spec_index(blockers_mask[q].0)].0 == attack_board(
                bishop,
                blockers_mask[q].0,
                a,
            ) by {
                if q < p {
                    let iq = magic.spec_index(blockers_mask[q].0);
                    assert(old_used[iq]);
                    assert(old_output[iq].0 == attack_board(bishop, blockers_mask[q].0, a));
                }
            }
        }
        p = p + 1;
    }
    proof {
        assert forall|occ: u64|
            (#[trigger] output@[magic.spec_index(occ)]).0 == attack_board(bishop, occ, a) by {
            let masked = occ & magic.mask.0;
            magic.lemma_index_masked(occ);
            assert(subset_of(masked, magic.mask.0)) by {
                let m = magic.mask.0;
                assert((occ & m) & m == occ & m) by (bit_vector);
            }
            let q = board_pattern(masked, spec_ones(relevant_blockers.0)) as int;
            assert(blockers_mask[q].0 == masked);
            lemma_attack_board_masked(bishop, occ, a);
        }
        lemma_table_shows_usable(output@, *magic, bishop, a);
    }
    Some(output)
}

/// The attack table of the slider `piece` on `square`, addressed by that
/// square's magic constant: of the rook for `Pieces::ROOK`, of the bishop for
/// `Pieces::BISHOP`. `None` when the constant cannot address such a table.
pub fn generate_magic_moves(square: &Square, piece: usize) -> (result: Option<Vec<BitBoard>>)
    requires
        square.on_board(),
        piece == Pieces::ROOK || piece == Pieces::BISHOP,
    ensures
        result matches Some(table) ==> slider_table_ok(
            table@,
            spec_magic(piece == Pieces::BISHOP, square.0 as int),
            piece == Pieces::BISHOP,
            square.0 as int,
        ),
        result.is_some() == magic_usable(
            piece == Pieces::BISHOP,
            square.0 as int,
            spec_magic(piece == Pieces::BISHOP, square.0 as int),
        ),
{
    let magic = if piece == Pieces::ROOK {
        rook_magic(square)
    } else {
        bishop_magic(square)
    };
    build_magic_table(square, piece, &magic)
}

/// `pairs` holds, for every board inside `mask`, that board with what the
/// slider on `a` attacks when it blocks, in the order of the patterns that
/// pick the boards out of the squares of `mask`.
pub open spec fn lists_attacks(pairs: Seq<(BitBoard, BitBoard)>, mask: u64, bishop: bool, a: int) -> bool {
    &&& pairs.len() == (1u64 << (popcount(mask) as u64))
    &&& forall|i: int|
        0 <= i < pairs.len() ==> (#[trigger] pairs[i]).0.0 == pattern_board(i as u64, spec_ones(mask))
            && subset_of(pairs[i].0.0, mask) && pairs[i].1.0 == attack_board(bishop, pairs[i].0.0, a)
    &&& forall|b: u64|
        subset_of(b, mask) ==> exists|i: int| 0 <= i < pairs.len() && (#[trigger] pairs[i]).0.0 == b
}

/// The relevant blockers of the slider `piece` on `square`, and every
/// board inside them paired with the slider's attacks for it.
fn generate_slider_moves(square: &Square, piece: usize) -> (result: (
    BitBoard,
    Vec<(BitBoard, BitBoard)>,
))
    requires
        square.on_board(),
        piece == Pieces::ROOK || piece == Pieces::BISHOP,
        popcount(relevant_board(piece == Pieces::BISHOP, square.0 as int)) <= 16,
    ensures
        result.0.0 == relevant_board(piece == Pieces::BISHOP, square.0 as int),
        lists_attacks(result.1@, result.0.0, piece == Pieces::BISHOP, square.0 as int),
{
    let relevant_blockers = generate_relevant_blockers(square, piece);
    let blockers_mask = create_blocker_boards(&relevant_blockers);
    let legal_moves_mask = generate_slider_moves_from_blockers(
        square,
        blockers_mask.as_slice(),
        piece,
    );
    let mut output: Vec<(BitBoard, BitBoard)> = Vec::with_capacity(blockers_mask.len());
    let mut i: usize = 0;
    while i < blockers_mask.len()
        invariant
            i <= blockers_mask.len(),
            legal_moves_mask.len() == blockers_mask.len(),
            output.len() == i,
            forall|j: int|
                0 <= j < i ==> (#[trigger] output[j]) == (blockers_mask[j], legal_moves_mask[j]),
        decreases blockers_mask.len() - i,
    {
        output.push((blockers_mask[i], legal_moves_mask[i]));
        i = i + 1;
    }
    proof {
        let mask = relevant_blockers.0;
        assert forall|b: u64| subset_of(b, mask) implies exists|i: int|
            0 <= i < output.len() && (#[trigger] output[i]).0.0 == b by {
            let q = board_pattern(b, spec_ones(mask)) as int;
            assert(output[q].0.0 == b);
        }
    }
    (relevant_blockers, output)
}

/// The relevant blockers of a rook on `square`, and every board inside
/// them paired with the rook's attacks for it.
pub fn generate_rook_moves(square: &Square) -> (result: (BitBoard, Vec<(BitBoard, BitBoard)>))
    requires
        square.on_board(),
        popcount(relevant_board(false, square.0 as int)) <= 16,
    ensures
        result.0.0 == relevant_board(false, square.0 as int),
        lists_attacks(result.1@, result.0.0, false, square.0 as int),
{
    generate_slider_moves(square, Pieces::ROOK)
}

/// The relevant blockers of a bishop on `square`, and every board inside
/// them paired with the bishop's attacks for it.
pub fn generate_bishop_moves(square: &Square) -> (result: (BitBoard, Vec<(BitBoard, BitBoard)>))
    requires
        square.on_board(),
        popcount(relevant_board(true, square.0 as int)) <= 16,
    ensures
        result.0.0 == relevant_board(true, square.0 as int),
        lists_attacks(result.1@, result.0.0, true, square.0 as int),
{
    generate_slider_moves(square, Pieces::BISHOP)
}

/// Each king step is one step along one of the eight directions.
pub proof fn lemma_king_step_is_ray(a: int, t: int)
    requires
        on_board(a),
    ensures
        king_step(a, t) == exists|d: int|
            0 <= d < 8 && ray_on_board(a, d, 1) && #[trigger] ray_square(a, d, 1) == t,
{
    if king_step(a, t) {
        let dr = rank_of(t) - rank_of(a);
        let df = file_of(t) - file_of(a);
        let d: int = if dr == 1 {
            if df == 1 {
                4
            } else if df == -1 {
                6
            } else {
                0
            }
        } else if dr == -1 {
            if df == 1 {
                7
            } else if df == -1 {
                5
            } else {
                1
            }
        } else {
            if df == 1 {
                2
            } else {
                3
            }
        };
        assert(ray_on_board(a, d, 1) && ray_square(a, d, 1) == t);
    }
    if exists|d: int| 0 <= d < 8 && ray_on_board(a, d, 1) && #[trigger] ray_square(a, d, 1) == t {
        let d = choose|d: int|
            0 <= d < 8 && ray_on_board(a, d, 1) && #[trigger] ray_square(a, d, 1) == t;
        lemma_ray_prefix(a, d, 1, 1);
    }
}

/// The squares one king step from `square`.
pub fn generate_king_moves(square: &Square) -> (r: BitBoard)
    requires
        square.on_board(),
    ensures
        forall|t: int| r.has(t) == king_step(square.0 as int, t),
        r.0 == king_board(square.0 as int),
{
    let ghost a = square.0 as int;
    let rank: i8 = square.get_rank() as i8;
    let file: i8 = square.get_file() as i8;
    let mut moves = BitBoard::zeros();
    let mut dir: u8 = 0;
    proof {
        assert forall|t: int| !moves.has(t) by {
            lemma_bit_zero(t);
        }
    }
    while dir < 8
        invariant
            a == square.0,
            on_board(a),
            rank == rank_of(a),
            file == file_of(a),
            dir <= 8,
            forall|t: int|
                moves.has(t) == exists|d: int|
                    0 <= d < dir && ray_on_board(a, d, 1) && #[trigger] ray_square(a, d, 1) == t,
        decreases 8 - dir,
    {
        let next_rank: i8 = rank + dir_rank_step(dir);
        let next_file: i8 = file + dir_file_step(dir);
        let ghost before = moves;
        if 0 <= next_rank && next_rank <= 7 && 0 <= next_file && next_file <= 7 {
            moves.set_one(&Square::new((next_rank * 8 + next_file) as u8));
        }
        proof {
            assert forall|t: int|
                moves.has(t) == exists|d: int|
                    0 <= d < dir + 1 && ray_on_board(a, d, 1) && #[trigger] ray_square(a, d, 1)
                        == t by {
                if before.has(t) {
                    let d = choose|d: int|
                        0 <= d < dir && ray_on_board(a, d, 1) && #[trigger] ray_square(a, d, 1)
                            == t;
                    assert(0 <= d < dir + 1 && ray_on_board(a, d, 1) && ray_square(a, d, 1) == t);
                }
                if ray_on_board(a, dir as int, 1) && ray_square(a, dir as int, 1) == t {
                    assert(moves.has(t));
                }
            }
        }
        dir = dir + 1;
    }
    proof {
        let pred = |t: int| king_step(a, t);
        assert forall|t: int| moves.has(t) == king_step(a, t) by {
            lemma_king_step_is_ray(a, t);
        }
        assert forall|t: int| 0 <= t < 64 implies bit(moves.0, t) == pred(t) by {
            assert(moves.has(t) == king_step(a, t));
        }
        lemma_board_of_unique(pred, moves.0);
    }
    moves
}

/// The eight knight jumps, by number, as a change of file and of rank.
pub open spec fn knight_jump(k: int) -> (int, int) {
    if k == 0 {
        (-1, 2)
    } else if k == 1 {
        (-1, -2)
    } else if k == 2 {
        (-2, 1)
    } else if k == 3 {
        (-2, -1)
    } else if k == 4 {
        (1, 2)
    } else if k == 5 {
        (1, -2)
    } else if k == 6 {
        (2, 1)
    } else {
        (2, -1)
    }
}

/// Jump number `k`, as a change of file and of rank.
fn pony_move(k: u8) -> (r: (i8, i8))
    requires
        k < 8,
    ensures
        r.0 == knight_jump(k as int).0,
        r.1 == knight_jump(k as int).1,
{
    if k == 0 {
        (-1, 2)
    } else if k == 1 {
        (-1, -2)
    } else if k == 2 {
        (-2, 1)
    } else if k == 3 {
        (-2, -1)
    } else if k == 4 {
        (1, 2)
    } else if k == 5 {
        (1, -2)
    } else if k == 6 {
        (2, 1)
    } else {
        (2, -1)
    }
}

/// Whether jump number `k` from `a` lands on `t`.
pub open spec fn knight_lands(a: int, k: int, t: int) -> bool {
    let new_file = file_of(a) + knight_jump(k).0;
    let new_rank = rank_of(a) + knight_jump(k).1;
    0 <= new_file < 8 && 0 <= new_rank < 8 && t == new_rank * 8 + new_file
}

/// Each knight step is one of the eight jumps.
pub proof fn lemma_knight_step_is_jump(a: int, t: int)
    requires
        on_board(a),
    ensures
        knight_step(a, t) == exists|k: int| 0 <= k < 8 && #[trigger] knight_lands(a, k, t),
{
    if knight_step(a, t) {
        let dr = rank_of(t) - rank_of(a);
        let df = file_of(t) - file_of(a);
        let k: int = if df == -1 {
            if dr == 2 {
                0
            } else {
                1
            }
        } else if df == -2 {
            if dr == 1 {
                2
            } else {
                3
            }
        } else if df == 1 {
            if dr == 2 {
                4
            } else {
                5
            }
        } else {
            if dr == 1 {
                6
            } else {
                7
            }
        };
        assert(knight_lands(a, k, t));
    }
    if exists|k: int| 0 <= k < 8 && #[trigger] knight_lands(a, k, t) {
        let k = choose|k: int| 0 <= k < 8 && #[trigger] knight_lands(a, k, t);
        assert(knight_step(a, t));
    }
}

/// The squares one knight jump from `square`.
pub fn generate_knight_moves(square: &Square) -> (r: BitBoard)
    requires
        square.on_board(),
    ensures
        forall|t: int| r.has(t) == knight_step(square.0 as int, t),
        r.0 == knight_board(square.0 as int),
{
    let ghost a = square.0 as int;
    let i8_bit: i8 = square.as_u8() as i8;
    let square_file: i8 = square.get_file() as i8;
    let mut moves = BitBoard::zeros();
    let mut k: u8 = 0;
    proof {
        assert forall|t: int| !moves.has(t) by {
            lemma_bit_zero(t);
        }
    }
    while k < 8
        invariant
            a == square.0,
            on_board(a),
            i8_bit == a,
            square_file == file_of(a),
            k <= 8,
            forall|t: int|
                moves.has(t) == exists|j: int| 0 <= j < k && #[trigger] knight_lands(a, j, t),
        decreases 8 - k,
    {
        let pony = pony_move(k);
        let new_file: i8 = square_file + pony.0;
        let ghost before = moves;
        if 0 <= new_file && new_file <= 7 {
            let new_bit: i8 = pony.0 + pony.1 * 8 + i8_bit;
            if 0 <= new_bit && new_bit <= 63 {
                moves.set_one(&Square::new(new_bit as u8));
            }
        }
        proof {
            assert forall|t: int|
                moves.has(t) == exists|j: int| 0 <= j < k + 1 && #[trigger] knight_lands(a, j, t) by {
                if before.has(t) {
                    let j = choose|j: int| 0 <= j < k && #[trigger] knight_lands(a, j, t);
                    assert(0 <= j < k + 1 && knight_lands(a, j, t));
                }
                if knight_lands(a, k as int, t) {
                    assert(moves.has(t));
                }
            }
        }
        k = k + 1;
    }
    proof {
        let pred = |t: int| knight_step(a, t);
        assert forall|t: int| moves.has(t) == knight_step(a, t) by {
            lemma_knight_step_is_jump(a, t);
        }
        assert forall|t: int| 0 <= t < 64 implies bit(moves.0, t) == pred(t) by {
            assert(moves.has(t) == knight_step(a, t));
        }
        lemma_board_of_unique(pred, moves.0);
    }
    moves
}

/// The attack tables of the move generator.
pub struct MoveGenMasks {
    pub king_moves: Vec<BitBoard>,
    pub knight_moves: Vec<BitBoard>,
    pub rook_moves: Vec<Vec<BitBoard>>,
    pub bishop_moves: Vec<Vec<BitBoard>>,
    pub rook_magics: Vec<Magic>,
    pub bishop_magics: Vec<Magic>,
}

impl MoveGenMasks {
    /// The tables hold, for each square, the steps of king and knight and,
    /// behind the square's magic, the attacks of rook and bishop for every
    /// occupancy.
    pub open spec fn wf(&self) -> bool {
        &&& self.king_moves.len() == 64
        &&& self.knight_moves.len() == 64
        &&& self.rook_moves.len() == 64
        &&& self.bishop_moves.len() == 64
        &&& self.rook_magics.len() == 64
        &&& self.bishop_magics.len() == 64
        &&& forall|s: int|
            0 <= s < 64 ==> {
                &&& (#[trigger] self.king_moves[s]).0 == king_board(s)
                &&& self.knight_moves[s].0 == knight_board(s)
                &&& slider_table_ok(self.rook_moves[s]@, self.rook_magics[s], false, s)
                &&& slider_table_ok(self.bishop_moves[s]@, self.bishop_magics[s], true, s)
            }
    }

    /// The tables are addressed by the magic constants of this crate.
    pub open spec fn uses_constants(&self) -> bool {
        forall|s: int|
            0 <= s < 64 ==> (#[trigger] self.rook_magics[s]) == spec_rook_magic(s)
                && self.bishop_magics[s] == spec_bishop_magic(s)
    }

    /// Builds the tables. `None` when a magic constant cannot address its
    /// table.
    pub fn load() -> (r: Option<Self>)
        ensures
            r matches Some(masks) ==> masks.wf() && masks.uses_constants(),
            r.is_some() == constants_usable(),
    {
        generate_moves()
    }
}

/// Every magic constant of this crate can address its table.
pub open spec fn constants_usable() -> bool {
    forall|s: int|
        0 <= s < 64 ==> #[trigger] magic_usable(false, s, spec_rook_magic(s)) && magic_usable(
            true,
            s,
            spec_bishop_magic(s),
        )
}

/// Builds the attack tables of all 64 squares. `None` when a magic
/// constant cannot address its table.
pub fn generate_moves() -> (r: Option<MoveGenMasks>)
    ensures
        r matches Some(masks) ==> masks.wf() && masks.uses_constants(),
        r.is_some() == constants_usable(),
{
    let mut king_moves: Vec<BitBoard> = Vec::with_capacity(64);
    let mut knight_moves: Vec<BitBoard> = Vec::with_capacity(64);
    let mut rook_moves: Vec<Vec<BitBoard>> = Vec::with_capacity(64);
    let mut bishop_moves: Vec<Vec<BitBoard>> = Vec::with_capacity(64);
    let mut rook_magics: Vec<Magic> = Vec::with_capacity(64);
    let mut bishop_magics: Vec<Magic> = Vec::with_capacity(64);
    let mut i: u8 = 0;
    while i < 64
        invariant
            i <= 64,
            king_moves.len() == i,
            knight_moves.len() == i,
            rook_moves.len() == i,
            bishop_moves.len() == i,
            rook_magics.len() == i,
            bishop_magics.len() == i,
            forall|s: int|
                0 <= s < i ==> {
                    &&& (#[trigger] king_moves[s]).0 == king_board(s)
                    &&& knight_moves[s].0 == knight_board(s)
                    &&& slider_table_ok(rook_moves[s]@, rook_magics[s], false, s)
                    &&& slider_table_ok(bishop_moves[s]@, bishop_magics[s], true, s)
                    &&& rook_magics[s] == spec_rook_magic(s)
                    &&& bishop_magics[s] == spec_bishop_magic(s)
                },
        decreases 64 - i,
    {
        let square = Square::new(i);

        let king_bb = generate_king_moves(&square);
        let knight_bb = generate_knight_moves(&square);
        let rook_mapping = match generate_magic_moves(&square, Pieces::ROOK) {
            Some(table) => table,
            None => {
                proof {
                    assert(!magic_usable(false, i as int, spec_rook_magic(i as int)));
                }
                return None;
            },
        };
        let bishop_mapping = match generate_magic_moves(&square, Pieces::BISHOP) {
            Some(table) => table,
            None => {
                proof {
                    assert(!magic_usable(true, i as int, spec_bishop_magic(i as int)));
                }
                return None;
            },
        };
        king_moves.push(king_bb);
        knight_moves.push(knight_bb);
        rook_moves.push(rook_mapping);
        bishop_moves.push(bishop_mapping);
        rook_magics.push(rook_magic(&square));
        bishop_magics.push(bishop_magic(&square));
        i = i + 1;
    }
    let masks = MoveGenMasks {
        king_moves,
        knight_moves,
        rook_moves,
        bishop_moves,
        rook_magics,
        bishop_magics,
    };
    proof {
        assert forall|s: int| 0 <= s < 64 implies #[trigger] magic_usable(
            false,
            s,
            spec_rook_magic(s),
        ) && magic_usable(true, s, spec_bishop_magic(s)) by {
            assert(masks.king_moves[s].0 == king_board(s));
            lemma_table_shows_usable(masks.rook_moves[s]@, masks.rook_magics[s], false, s);
            lemma_table_shows_usable(masks.bishop_moves[s]@, masks.bishop_magics[s], true, s);
        }
        assert forall|s: int| 0 <= s < 64 implies (#[trigger] masks.rook_magics[s])
            == spec_rook_magic(s) && masks.bishop_magics[s] == spec_bishop_magic(s) by {
            assert(masks.king_moves[s].0 == king_board(s));
        }
    }
    Some(masks)
}

} // verus!
