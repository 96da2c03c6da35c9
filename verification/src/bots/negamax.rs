//! What the search computes: within its window, the alpha-beta search
//! gives the value of the plain negamax search, which looks at every move.

use vstd::prelude::*;
use crate::bots::bot::is_draw;
use crate::bots::bot::spec_alpha_beta;
use crate::bots::bot::spec_alpha_beta_from;
use crate::bots::bot::spec_clamp;
use crate::bots::bot::spec_evaluate;
use crate::bots::bot::spec_max;
use crate::bots::bot::spec_quiescence;
use crate::bots::bot::spec_quiescence_from;
use crate::bots::bot::MAX_VALUE;
use crate::bots::bot::MIN_VALUE;
use crate::moves::legality::spec_capture_moves;
use crate::moves::legality::spec_legal_moves;
use crate::moves::moves_utils::Move;
use crate::position::Position;

verus! {

/// The value of a position once the captures are played out: the better
/// of its evaluation and of what each capture leads to.
pub open spec fn spec_quiet_value(pos: Position, keys: Seq<u64>) -> int
    decreases pos.piece_count(), 1nat, 0nat,
{
    spec_quiet_from(pos, keys, spec_capture_moves(pos), 0, spec_evaluate(pos))
}

/// The best of `best` and of what the captures of `moves` from number `i`
/// on lead to.
pub open spec fn spec_quiet_from(pos: Position, keys: Seq<u64>, moves: Seq<Move>, i: int, best: int) -> int
    decreases pos.piece_count(), 0nat, moves.len() - i,
{
    if i < 0 || i >= moves.len() {
        best
    } else {
        let child = pos.after_move(moves[i], keys);
        let value = if child.piece_count() < pos.piece_count() {
            -spec_quiet_value(child, keys)
        } else {
            0
        };
        spec_quiet_from(pos, keys, moves, i + 1, spec_max(best, value))
    }
}

/// The negamax value of a position at depth `depth`: nothing for a drawn
/// position, the value with the captures played out at depth nothing, and
/// else the best of what the legal moves lead to, one less deep; the lowest
/// score where there is no legal move.
pub open spec fn spec_negamax(pos: Position, keys: Seq<u64>, depth: nat) -> int
    decreases depth, 1nat, 0nat,
{
    if is_draw(pos) {
        0
    } else if depth == 0 {
        spec_quiet_value(pos, keys)
    } else {
        spec_negamax_from(pos, keys, spec_legal_moves(pos), 0, MIN_VALUE as int, depth)
    }
}

/// The best of `best` and of what the moves of `moves` from number `i` on
/// lead to.
pub open spec fn spec_negamax_from(
    pos: Position,
    keys: Seq<u64>,
    moves: Seq<Move>,
    i: int,
    best: int,
    depth: nat,
) -> int
    decreases depth, 0nat, moves.len() - i,
{
    if depth == 0 || i < 0 || i >= moves.len() {
        best
    } else {
        spec_negamax_from(
            pos,
            keys,
            moves,
            i + 1,
            spec_max(
                best,
                -spec_negamax(pos.after_move(moves[i], keys), keys, (depth - 1) as nat),
            ),
            depth,
        )
    }
}

/// What a score `found` of a search that may leave its window says of the
/// true value `value`: at or above `beta` it is a lower bound, at or below
/// `alpha` an upper bound, and between the two it is the value.
pub open spec fn bounds_value(found: int, value: int, alpha: int, beta: int) -> bool {
    &&& found >= beta ==> value >= found
    &&& found <= alpha ==> value <= found
    &&& alpha < found < beta ==> value == found
}

/// The best so far is never lost.
proof fn lemma_quiet_from_grows(pos: Position, keys: Seq<u64>, moves: Seq<Move>, i: int, best: int)
    ensures
        spec_quiet_from(pos, keys, moves, i, best) >= best,
    decreases moves.len() - i,
{
    if 0 <= i < moves.len() {
        let child = pos.after_move(moves[i], keys);
        let value = if child.piece_count() < pos.piece_count() {
            -spec_quiet_value(child, keys)
        } else {
            0
        };
        lemma_quiet_from_grows(pos, keys, moves, i + 1, spec_max(best, value));
    }
}

/// The quiescence search from capture number `i` on bounds the value with
/// the captures played out, given that what it found so far does.
proof fn lemma_quiescence_from(
    pos: Position,
    keys: Seq<u64>,
    moves: Seq<Move>,
    i: int,
    alpha: int,
    beta: int,
    best: int,
    true_best: int,
)
    requires
        alpha < beta,
        0 <= i,
        best < beta,
        true_best <= best,
        best > alpha ==> true_best == best,
    ensures
        bounds_value(
            spec_quiescence_from(pos, keys, moves, i, spec_max(alpha, best), beta, best),
            spec_quiet_from(pos, keys, moves, i, true_best),
            alpha,
            beta,
        ),
    decreases pos.piece_count(), 0nat, moves.len() - i,
{
    let lower = spec_max(alpha, best);
    if i < moves.len() {
        let child = pos.after_move(moves[i], keys);
        let guarded = child.piece_count() < pos.piece_count();
        if guarded {
            lemma_quiescence(child, keys, -beta, -lower);
        }
        let score = if guarded {
            -spec_quiescence(child, keys, -beta, -lower)
        } else {
            0
        };
        let value = if guarded {
            -spec_quiet_value(child, keys)
        } else {
            0
        };
        assert(bounds_value(-score, -value, -beta, -lower));
        if score >= beta {
            lemma_quiet_from_grows(pos, keys, moves, i + 1, spec_max(true_best, value));
        } else {
            let next_best = spec_max(best, score);
            let next_true = spec_max(true_best, value);
            assert(spec_max(lower, score) == spec_max(alpha, next_best));
            lemma_quiescence_from(pos, keys, moves, i + 1, alpha, beta, next_best, next_true);
        }
    }
}

/// The quiescence search bounds the value with the captures played out.
pub proof fn lemma_quiescence(pos: Position, keys: Seq<u64>, alpha: int, beta: int)
    requires
        alpha < beta,
    ensures
        bounds_value(
            spec_quiescence(pos, keys, alpha, beta),
            spec_quiet_value(pos, keys),
            alpha,
            beta,
        ),
    decreases pos.piece_count(), 1nat, 0nat,
{
    let stand = spec_evaluate(pos);
    let moves = spec_capture_moves(pos);
    if stand >= beta {
        lemma_quiet_from_grows(pos, keys, moves, 0, stand);
    } else {
        lemma_quiescence_from(pos, keys, moves, 0, alpha, beta, stand, stand);
    }
}

/// The best so far is never lost.
proof fn lemma_negamax_from_grows(
    pos: Position,
    keys: Seq<u64>,
    moves: Seq<Move>,
    i: int,
    best: int,
    depth: nat,
)
    ensures
        spec_negamax_from(pos, keys, moves, i, best, depth) >= best,
    decreases moves.len() - i,
{
    if depth > 0 && 0 <= i < moves.len() {
        lemma_negamax_from_grows(
            pos,
            keys,
            moves,
            i + 1,
            spec_max(
                best,
                -spec_negamax(pos.after_move(moves[i], keys), keys, (depth - 1) as nat),
            ),
            depth,
        );
    }
}

/// With an empty window the search gives the one score of the window.
proof fn lemma_alpha_beta_from_empty_window(
    pos: Position,
    keys: Seq<u64>,
    moves: Seq<Move>,
    i: int,
    alpha: int,
    depth: nat,
)
    ensures
        spec_alpha_beta_from(pos, keys, moves, i, alpha, alpha, depth) == alpha,
    decreases moves.len() - i,
{
    if depth > 0 && 0 <= i < moves.len() {
        lemma_alpha_beta_from_empty_window(pos, keys, moves, i + 1, alpha, depth);
    }
}

/// The alpha-beta search from move number `i` on gives, within the
/// window, the value of the negamax search from there on, `true_best` being
/// the best true value so far.
proof fn lemma_alpha_beta_from(
    pos: Position,
    keys: Seq<u64>,
    moves: Seq<Move>,
    i: int,
    alpha: int,
    beta: int,
    true_best: int,
    depth: nat,
)
    requires
        alpha < beta,
        0 <= i,
        depth > 0,
        true_best < beta,
        MIN_VALUE <= alpha,
        beta <= MAX_VALUE,
    ensures
        spec_clamp(
            spec_alpha_beta_from(pos, keys, moves, i, spec_max(alpha, true_best), beta, depth),
            alpha,
            beta,
        ) == spec_clamp(spec_negamax_from(pos, keys, moves, i, true_best, depth), alpha, beta),
    decreases depth, 0nat, moves.len() - i,
{
    let lower = spec_max(alpha, true_best);
    if i < moves.len() {
        let child = pos.after_move(moves[i], keys);
        lemma_alpha_beta(child, keys, -beta, -lower, (depth - 1) as nat);
        let score = -spec_alpha_beta(child, keys, -beta, -lower, (depth - 1) as nat);
        let value = -spec_negamax(child, keys, (depth - 1) as nat);
        assert(spec_clamp(score, lower, beta) == spec_clamp(value, lower, beta));
        if score >= beta {
            lemma_negamax_from_grows(pos, keys, moves, i + 1, spec_max(true_best, value), depth);
        } else {
            let next_true = spec_max(true_best, value);
            assert(spec_max(lower, score) == spec_max(alpha, next_true));
            lemma_alpha_beta_from(pos, keys, moves, i + 1, alpha, beta, next_true, depth);
        }
    }
}

/// Within its window, the alpha-beta search gives the value of the
/// negamax search: for a window between the lowest and the highest score,
/// both values, held between `alpha` and `beta`, are the same.
pub proof fn lemma_alpha_beta(pos: Position, keys: Seq<u64>, alpha: int, beta: int, depth: nat)
    requires
        MIN_VALUE <= alpha <= beta <= MAX_VALUE,
    ensures
        spec_clamp(spec_alpha_beta(pos, keys, alpha, beta, depth), alpha, beta) == spec_clamp(
            spec_negamax(pos, keys, depth),
            alpha,
            beta,
        ),
    decreases depth, 1nat, 0nat,
{
    if is_draw(pos) {
    } else if depth == 0 {
        if alpha < beta {
            lemma_quiescence(pos, keys, alpha, beta);
        }
    } else {
        let moves = spec_legal_moves(pos);
        if alpha < beta {
            lemma_alpha_beta_from(pos, keys, moves, 0, alpha, beta, MIN_VALUE as int, depth);
        } else {
            lemma_alpha_beta_from_empty_window(pos, keys, moves, 0, alpha, depth);
        }
    }
}

} // verus!
