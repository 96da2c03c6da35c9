//! The geometry of the board: which squares a king, a knight or a sliding
//! piece reaches from a square, stated without any table.

use vstd::prelude::*;
use crate::types::bits::bit;

verus! {

pub open spec fn on_board(s: int) -> bool {
    0 <= s < 64
}

pub open spec fn rank_of(s: int) -> int {
    s / 8
}

pub open spec fn file_of(s: int) -> int {
    s % 8
}

/// `b` is one king step away from `a`.
pub open spec fn king_step(a: int, b: int) -> bool {
    &&& on_board(a)
    &&& on_board(b)
    &&& a != b
    &&& -1 <= rank_of(b) - rank_of(a) <= 1
    &&& -1 <= file_of(b) - file_of(a) <= 1
}

/// `b` is one knight jump away from `a`.
pub open spec fn knight_step(a: int, b: int) -> bool {
    let dr = rank_of(b) - rank_of(a);
    let df = file_of(b) - file_of(a);
    &&& on_board(a)
    &&& on_board(b)
    &&& ((dr == 1 || dr == -1) && (df == 2 || df == -2) || (dr == 2 || dr == -2) && (df == 1
        || df == -1))
}

/// The eight directions, by number: 0 north, 1 south, 2 east, 3 west (the
/// rook's), then 4 north-east, 5 south-west, 6 north-west, 7 south-east (the
/// bishop's). This is the change of rank in one step.
pub open spec fn dir_dr(dir: int) -> int {
    if dir == 0 || dir == 4 || dir == 6 {
        1
    } else if dir == 1 || dir == 5 || dir == 7 {
        -1
    } else {
        0
    }
}

/// The change of file in one step of direction `dir`.
pub open spec fn dir_df(dir: int) -> int {
    if dir == 2 || dir == 4 || dir == 7 {
        1
    } else if dir == 3 || dir == 5 || dir == 6 {
        -1
    } else {
        0
    }
}

/// The rank reached after `n` steps from `a` in direction `dir`.
pub open spec fn ray_rank(a: int, dir: int, n: int) -> int {
    if dir_dr(dir) == 1 {
        rank_of(a) + n
    } else if dir_dr(dir) == -1 {
        rank_of(a) - n
    } else {
        rank_of(a)
    }
}

/// The file reached after `n` steps from `a` in direction `dir`.
pub open spec fn ray_file(a: int, dir: int, n: int) -> int {
    if dir_df(dir) == 1 {
        file_of(a) + n
    } else if dir_df(dir) == -1 {
        file_of(a) - n
    } else {
        file_of(a)
    }
}

/// Whether `n` steps from `a` in direction `dir` stay on the board.
pub open spec fn ray_on_board(a: int, dir: int, n: int) -> bool {
    0 <= ray_rank(a, dir, n) < 8 && 0 <= ray_file(a, dir, n) < 8
}

/// The square `n` steps from `a` in direction `dir`.
pub open spec fn ray_square(a: int, dir: int, n: int) -> int {
    ray_rank(a, dir, n) * 8 + ray_file(a, dir, n)
}

/// No square of `occ` stands among the first `n - 1` steps of the ray.
pub open spec fn ray_clear(occ: u64, a: int, dir: int, n: int) -> bool {
    forall|k: int| 1 <= k < n ==> !bit(occ, #[trigger] ray_square(a, dir, k))
}

/// A slider on `a` reaches `t` along direction `dir` when the squares of
/// `occ` block: `t` lies on the ray and nothing stands before it.
pub open spec fn ray_attacks(occ: u64, a: int, dir: int, t: int) -> bool {
    exists|n: int|
        1 <= n < 8 && ray_on_board(a, dir, n) && #[trigger] ray_square(a, dir, n) == t
            && ray_clear(occ, a, dir, n)
}

/// A rook on `a` attacks `t` when the squares of `occ` block.
pub open spec fn rook_attacks(occ: u64, a: int, t: int) -> bool {
    on_board(a) && (ray_attacks(occ, a, 0, t) || ray_attacks(occ, a, 1, t) || ray_attacks(
        occ,
        a,
        2,
        t,
    ) || ray_attacks(occ, a, 3, t))
}

/// A bishop on `a` attacks `t` when the squares of `occ` block.
pub open spec fn bishop_attacks(occ: u64, a: int, t: int) -> bool {
    on_board(a) && (ray_attacks(occ, a, 4, t) || ray_attacks(occ, a, 5, t) || ray_attacks(
        occ,
        a,
        6,
        t,
    ) || ray_attacks(occ, a, 7, t))
}

/// A queen on `a` attacks `t` when the squares of `occ` block.
pub open spec fn queen_attacks(occ: u64, a: int, t: int) -> bool {
    rook_attacks(occ, a, t) || bishop_attacks(occ, a, t)
}

/// The attack of the slider kind `bishop` (a bishop if true, else a rook).
pub open spec fn slider_attacks(bishop: bool, occ: u64, a: int, t: int) -> bool {
    if bishop {
        bishop_attacks(occ, a, t)
    } else {
        rook_attacks(occ, a, t)
    }
}

/// `t` lies on the ray from `a` in direction `dir` and is not its last
/// square: only such a square can block anything.
pub open spec fn ray_inner(a: int, dir: int, t: int) -> bool {
    exists|n: int|
        1 <= n < 7 && ray_on_board(a, dir, n + 1) && #[trigger] ray_square(a, dir, n) == t
}

/// The squares whose occupancy decides what the slider on `a` attacks.
pub open spec fn relevant_blocker(bishop: bool, a: int, t: int) -> bool {
    on_board(a) && if bishop {
        ray_inner(a, 4, t) || ray_inner(a, 5, t) || ray_inner(a, 6, t) || ray_inner(a, 7, t)
    } else {
        ray_inner(a, 0, t) || ray_inner(a, 1, t) || ray_inner(a, 2, t) || ray_inner(a, 3, t)
    }
}

/// A ray that is on the board after `n` steps was on it after fewer, and
/// the squares it passes are squares of the board.
pub proof fn lemma_ray_prefix(a: int, dir: int, n: int, k: int)
    requires
        on_board(a),
        0 <= dir < 8,
        0 <= k <= n,
        ray_on_board(a, dir, n),
    ensures
        ray_on_board(a, dir, k),
        on_board(ray_square(a, dir, k)),
        rank_of(ray_square(a, dir, k)) == ray_rank(a, dir, k),
        file_of(ray_square(a, dir, k)) == ray_file(a, dir, k),
{
}

/// Two different step counts along a ray give two different squares.
pub proof fn lemma_ray_injective(a: int, dir: int, n: int, k: int)
    requires
        on_board(a),
        0 <= dir < 8,
        0 <= k < n,
        ray_on_board(a, dir, n),
    ensures
        ray_square(a, dir, n) != ray_square(a, dir, k),
{
    lemma_ray_prefix(a, dir, n, k);
    lemma_ray_prefix(a, dir, n, n);
}

/// What a slider attacks depends on `occ` only through the squares before
/// the end of each ray.
pub proof fn lemma_ray_attacks_relevant(occ1: u64, occ2: u64, a: int, dir: int, t: int)
    requires
        on_board(a),
        0 <= dir < 8,
        forall|s: int| ray_inner(a, dir, s) ==> bit(occ1, s) == bit(occ2, s),
        ray_attacks(occ1, a, dir, t),
    ensures
        ray_attacks(occ2, a, dir, t),
{
    let n = choose|n: int|
        1 <= n < 8 && ray_on_board(a, dir, n) && #[trigger] ray_square(a, dir, n) == t
            && ray_clear(occ1, a, dir, n);
    assert forall|k: int| 1 <= k < n implies !bit(occ2, #[trigger] ray_square(a, dir, k)) by {
        lemma_ray_prefix(a, dir, n, k + 1);
        assert(ray_inner(a, dir, ray_square(a, dir, k)));
    }
    assert(ray_clear(occ2, a, dir, n));
}

/// Occupancies that agree on the relevant blockers give the same attacks.
pub proof fn lemma_slider_attacks_relevant(bishop: bool, occ1: u64, occ2: u64, a: int, t: int)
    requires
        on_board(a),
        forall|s: int| relevant_blocker(bishop, a, s) ==> bit(occ1, s) == bit(occ2, s),
    ensures
        slider_attacks(bishop, occ1, a, t) == slider_attacks(bishop, occ2, a, t),
{
    let base: int = if bishop {
        4
    } else {
        0
    };
    assert forall|d: int| base <= d < base + 4 implies ray_attacks(occ1, a, d, t) == ray_attacks(
        occ2,
        a,
        d,
        t,
    ) by {
        assert forall|s: int| ray_inner(a, d, s) implies bit(occ1, s) == bit(occ2, s) by {
            assert(relevant_blocker(bishop, a, s));
        }
        if ray_attacks(occ1, a, d, t) {
            lemma_ray_attacks_relevant(occ1, occ2, a, d, t);
        }
        if ray_attacks(occ2, a, d, t) {
            lemma_ray_attacks_relevant(occ2, occ1, a, d, t);
        }
    }
}

/// The direction opposite to `dir`.
pub open spec fn opposite(dir: int) -> int {
    if dir % 2 == 0 {
        dir + 1
    } else {
        dir - 1
    }
}

/// Walking back from the end of a ray passes the squares of the ray in
/// reverse.
pub proof fn lemma_ray_reverse(a: int, dir: int, n: int, k: int)
    requires
        on_board(a),
        0 <= dir < 8,
        0 <= k <= n,
        ray_on_board(a, dir, n),
    ensures
        on_board(ray_square(a, dir, n)),
        ray_on_board(ray_square(a, dir, n), opposite(dir), k),
        ray_square(ray_square(a, dir, n), opposite(dir), k) == ray_square(a, dir, n - k),
{
    lemma_ray_prefix(a, dir, n, n);
    lemma_ray_prefix(a, dir, n, n - k);
}

/// If a slider on `a` reaches `t` along a direction, one on `t` reaches
/// `a` along the opposite direction.
pub proof fn lemma_ray_attacks_symmetric(occ: u64, a: int, dir: int, t: int)
    requires
        on_board(a),
        0 <= dir < 8,
        ray_attacks(occ, a, dir, t),
    ensures
        on_board(t),
        ray_attacks(occ, t, opposite(dir), a),
{
    let n = choose|n: int|
        1 <= n < 8 && ray_on_board(a, dir, n) && #[trigger] ray_square(a, dir, n) == t
            && ray_clear(occ, a, dir, n);
    let back = opposite(dir);
    lemma_ray_reverse(a, dir, n, n);
    assert(ray_square(a, dir, 0) == a);
    assert forall|k: int| 1 <= k < n implies !bit(occ, #[trigger] ray_square(t, back, k)) by {
        lemma_ray_reverse(a, dir, n, k);
        assert(!bit(occ, ray_square(a, dir, n - k)));
    }
    assert(ray_clear(occ, t, back, n));
    assert(ray_on_board(t, back, n) && ray_square(t, back, n) == a);
}

/// A rook's attack goes both ways, and so does a bishop's.
pub proof fn lemma_slider_attacks_symmetric(occ: u64, a: int, t: int)
    ensures
        rook_attacks(occ, a, t) ==> rook_attacks(occ, t, a),
        bishop_attacks(occ, a, t) ==> bishop_attacks(occ, t, a),
{
    if rook_attacks(occ, a, t) {
        if ray_attacks(occ, a, 0, t) {
            lemma_ray_attacks_symmetric(occ, a, 0, t);
        } else if ray_attacks(occ, a, 1, t) {
            lemma_ray_attacks_symmetric(occ, a, 1, t);
        } else if ray_attacks(occ, a, 2, t) {
            lemma_ray_attacks_symmetric(occ, a, 2, t);
        } else {
            lemma_ray_attacks_symmetric(occ, a, 3, t);
        }
    }
    if bishop_attacks(occ, a, t) {
        if ray_attacks(occ, a, 4, t) {
            lemma_ray_attacks_symmetric(occ, a, 4, t);
        } else if ray_attacks(occ, a, 5, t) {
            lemma_ray_attacks_symmetric(occ, a, 5, t);
        } else if ray_attacks(occ, a, 6, t) {
            lemma_ray_attacks_symmetric(occ, a, 6, t);
        } else {
            lemma_ray_attacks_symmetric(occ, a, 7, t);
        }
    }
}

} // verus!
