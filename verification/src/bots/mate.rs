//! What the search owes to a position with a mate in one move: a score of
//! mate or more, whatever the depth, and a move that mates.

use vstd::prelude::*;
use crate::bots::bot::is_draw;
use crate::bots::bot::spec_alpha_beta;
use crate::bots::bot::spec_alpha_beta_from;
use crate::bots::bot::spec_best_for_depth;
use crate::bots::bot::spec_best_move;
use crate::bots::bot::spec_deepening;
use crate::bots::bot::spec_quiescence_from;
use crate::bots::bot::spec_evaluate;
use crate::bots::bot::spec_max;
use crate::bots::bot::spec_quiescence;
use crate::bots::bot::spec_root_from;
use crate::bots::bot::CHECKMATE_SCORE;
use crate::bots::bot::MAX_VALUE;
use crate::bots::bot::MIN_VALUE;
use crate::moves::legality::in_check;
use crate::moves::legality::kept;
use crate::moves::legality::spec_capture_moves;
use crate::moves::legality::spec_legal_moves;
use crate::moves::moves_utils::Move;
use crate::position::Position;

verus! {

/// The side to move of `pos` is mated and the game not drawn before: it is
/// in check, has no legal move, and the position neither occurred three
/// times nor saw a hundred half moves without capture or pawn move.
pub open spec fn is_mated(pos: Position) -> bool {
    spec_legal_moves(pos).len() == 0 && in_check(pos, pos.turn()) && !is_draw(pos)
}

/// `m` is a legal move of `pos` that mates.
pub open spec fn mates(pos: Position, keys: Seq<u64>, m: Move) -> bool {
    spec_legal_moves(pos).contains(m) && is_mated(pos.after_move(m, keys))
}

/// The search of a mated position scores the mate at depth nothing, and
/// the lower end of its window at any other depth.
pub proof fn lemma_mated_score(pos: Position, keys: Seq<u64>, alpha: int, beta: int, depth: nat)
    requires
        is_mated(pos),
    ensures
        spec_alpha_beta(pos, keys, alpha, beta, depth) == if depth == 0 {
            -CHECKMATE_SCORE as int
        } else {
            alpha
        },
{
    if depth == 0 {
        assert(spec_evaluate(pos) == -CHECKMATE_SCORE);
        assert(spec_capture_moves(pos) =~= Seq::<Move>::empty()) by {
            assert(kept(spec_legal_moves(pos), |m: Move| pos.takes(m), 0) =~= Seq::<Move>::empty());
        }
        assert(spec_quiescence(pos, keys, alpha, beta) == -CHECKMATE_SCORE);
    } else {
        assert(spec_alpha_beta_from(pos, keys, spec_legal_moves(pos), 0, alpha, beta, depth)
            == alpha);
    }
}

/// Once the best score at the root is that of a mate or more, it stays
/// so.
proof fn lemma_root_keeps_mate(
    pos: Position,
    keys: Seq<u64>,
    moves: Seq<Move>,
    i: int,
    alpha: int,
    best: (int, Option<Move>),
    depth: nat,
)
    requires
        best.0 == alpha,
        best.0 >= CHECKMATE_SCORE,
        best.1 is Some,
    ensures
        spec_root_from(pos, keys, moves, i, alpha, best, depth).0 >= CHECKMATE_SCORE,
        spec_root_from(pos, keys, moves, i, alpha, best, depth).1 is Some,
    decreases moves.len() - i,
{
    if !(depth == 0 || i < 0 || i >= moves.len()) {
        let score = -spec_alpha_beta(
            pos.after_move(moves[i], keys),
            keys,
            -(MAX_VALUE as int),
            -alpha,
            (depth - 1) as nat,
        );
        if score == CHECKMATE_SCORE {
        } else if score > alpha {
            lemma_root_keeps_mate(pos, keys, moves, i + 1, score, (score, Some(moves[i])), depth);
        } else {
            lemma_root_keeps_mate(pos, keys, moves, i + 1, alpha, best, depth);
        }
    }
}

/// With a mating move at `j`, not yet looked at, the search at the root
/// ends with a score of mate or more.
proof fn lemma_root_finds_mate(
    pos: Position,
    keys: Seq<u64>,
    moves: Seq<Move>,
    i: int,
    j: int,
    alpha: int,
    best: (int, Option<Move>),
    depth: nat,
)
    requires
        depth >= 1,
        0 <= i <= j < moves.len(),
        is_mated(pos.after_move(moves[j], keys)),
        alpha == MIN_VALUE || (best.0 == alpha && best.1 is Some),
    ensures
        spec_root_from(pos, keys, moves, i, alpha, best, depth).0 >= CHECKMATE_SCORE,
        spec_root_from(pos, keys, moves, i, alpha, best, depth).1 is Some,
    decreases moves.len() - i,
{
    let child = pos.after_move(moves[i], keys);
    let score = -spec_alpha_beta(child, keys, -(MAX_VALUE as int), -alpha, (depth - 1) as nat);
    if i == j {
        lemma_mated_score(child, keys, -(MAX_VALUE as int), -alpha, (depth - 1) as nat);
        if depth == 1 {
            assert(score == CHECKMATE_SCORE);
        } else {
            assert(score == MAX_VALUE);
            if score > alpha {
                lemma_root_keeps_mate(pos, keys, moves, i + 1, score, (score, Some(moves[i])), depth);
            } else {
                lemma_root_keeps_mate(pos, keys, moves, i + 1, alpha, best, depth);
            }
        }
    } else if score == CHECKMATE_SCORE {
    } else if score > alpha {
        lemma_root_finds_mate(pos, keys, moves, i + 1, j, score, (score, Some(moves[i])), depth);
    } else {
        lemma_root_finds_mate(pos, keys, moves, i + 1, j, alpha, best, depth);
    }
}

/// Where a legal move mates, the search of any depth finds a move, with
/// a score of mate or more.
pub proof fn lemma_mate_in_one_is_found(pos: Position, keys: Seq<u64>, m: Move, depth: nat)
    requires
        depth >= 1,
        mates(pos, keys, m),
    ensures
        spec_best_for_depth(pos, keys, depth).0 >= CHECKMATE_SCORE,
        spec_best_for_depth(pos, keys, depth).1 is Some,
{
    let moves = spec_legal_moves(pos);
    let j = choose|j: int| 0 <= j < moves.len() && moves[j] == m;
    lemma_root_finds_mate(pos, keys, moves, 0, j, MIN_VALUE as int, (0, None), depth);
}

/// The quiescence search from the capture number `i` on ends no lower
/// than the best score so far.
proof fn lemma_captures_keep_best(
    pos: Position,
    keys: Seq<u64>,
    moves: Seq<Move>,
    i: int,
    alpha: int,
    beta: int,
    best: int,
)
    requires
        0 <= i,
        best < beta,
    ensures
        spec_quiescence_from(pos, keys, moves, i, alpha, beta, best) >= best,
    decreases moves.len() - i,
{
    if i < moves.len() {
        let child = pos.after_move(moves[i], keys);
        let score = if child.piece_count() < pos.piece_count() {
            -spec_quiescence(child, keys, -beta, -alpha)
        } else {
            0
        };
        if score < beta {
            lemma_captures_keep_best(
                pos,
                keys,
                moves,
                i + 1,
                spec_max(alpha, score),
                beta,
                spec_max(best, score),
            );
        }
    }
}

/// A position that the search of depth nothing scores as mated is mated.
pub proof fn lemma_scored_as_mated(pos: Position, keys: Seq<u64>, alpha: int, beta: int)
    requires
        spec_alpha_beta(pos, keys, alpha, beta, 0) == -CHECKMATE_SCORE,
    ensures
        is_mated(pos),
{
    let stand = spec_evaluate(pos);
    assert(stand >= -CHECKMATE_SCORE);
    if stand < beta {
        lemma_captures_keep_best(
            pos,
            keys,
            spec_capture_moves(pos),
            0,
            spec_max(alpha, stand),
            beta,
            stand,
        );
    }
    assert(spec_quiescence(pos, keys, alpha, beta) >= stand);
}

/// With a mating move at `j`, not yet looked at, the search of depth one
/// at the root ends with the first move from `i` on that mates, scored as
/// mate.
proof fn lemma_root_plays_mate(
    pos: Position,
    keys: Seq<u64>,
    moves: Seq<Move>,
    i: int,
    j: int,
    alpha: int,
    best: (int, Option<Move>),
)
    requires
        0 <= i <= j < moves.len(),
        is_mated(pos.after_move(moves[j], keys)),
    ensures
        spec_root_from(pos, keys, moves, i, alpha, best, 1).0 == CHECKMATE_SCORE,
        exists|k: int|
            i <= k <= j && spec_root_from(pos, keys, moves, i, alpha, best, 1).1 == Some(
                #[trigger] moves[k],
            ) && is_mated(pos.after_move(moves[k], keys)),
    decreases j - i,
{
    let child = pos.after_move(moves[i], keys);
    let score = -spec_alpha_beta(child, keys, -(MAX_VALUE as int), -alpha, 0);
    if score == CHECKMATE_SCORE {
        lemma_scored_as_mated(child, keys, -(MAX_VALUE as int), -alpha);
        assert(spec_root_from(pos, keys, moves, i, alpha, best, 1).1 == Some(moves[i]));
    } else {
        if i == j {
            lemma_mated_score(child, keys, -(MAX_VALUE as int), -alpha, 0);
        }
        let after = if score > alpha {
            spec_root_from(pos, keys, moves, i + 1, score, (score, Some(moves[i])), 1)
        } else {
            spec_root_from(pos, keys, moves, i + 1, alpha, best, 1)
        };
        if score > alpha {
            lemma_root_plays_mate(pos, keys, moves, i + 1, j, score, (score, Some(moves[i])));
        } else {
            lemma_root_plays_mate(pos, keys, moves, i + 1, j, alpha, best);
        }
        assert(spec_root_from(pos, keys, moves, i, alpha, best, 1) == after);
        let k = choose|k: int|
            i + 1 <= k <= j && after.1 == Some(#[trigger] moves[k]) && is_mated(
                pos.after_move(moves[k], keys),
            );
        assert(i <= k <= j && after.1 == Some(moves[k]));
    }
}

/// Where a legal move mates, iterative deepening to any depth gives a
/// move that mates.
pub proof fn lemma_mate_in_one_is_played(pos: Position, keys: Seq<u64>, m: Move, max_depth: int)
    requires
        max_depth >= 1,
        mates(pos, keys, m),
    ensures
        spec_best_move(pos, keys, max_depth) matches Some(found) && mates(pos, keys, found),
{
    let moves = spec_legal_moves(pos);
    let j = choose|j: int| 0 <= j < moves.len() && moves[j] == m;
    lemma_root_plays_mate(pos, keys, moves, 0, j, MIN_VALUE as int, (0, None));
    let found = spec_best_for_depth(pos, keys, 1);
    let k = choose|k: int|
        0 <= k <= j && found.1 == Some(#[trigger] moves[k]) && is_mated(
            pos.after_move(moves[k], keys),
        );
    assert(moves.contains(moves[k]));
    assert(spec_deepening(pos, keys, 1, max_depth, None) == found.1);
}

} // verus!
