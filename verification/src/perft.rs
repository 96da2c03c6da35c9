//! Counting the lines of play of a given length: the test of a move
//! generator.

use vstd::prelude::*;
use crate::board::lemma_unmake_restores;
use crate::board::lemma_view_determines_boards;
use crate::board::Board;
use crate::moves::legality::kept;
use crate::moves::legality::lemma_legal_move_keeps_sound;
use crate::moves::legality::lemma_one_king_square;
use crate::moves::legality::sound;
use crate::moves::legality::spec_legal_moves;
use crate::moves::move_mask_gen::MoveGenMasks;
use crate::moves::moves_calculation::spec_all_moves;
use crate::moves::moves_calculation::spec_castling_moves;
use crate::moves::moves_calculation::spec_moves_of_kind;
use crate::moves::moves_calculation::spec_moves_of_squares;
use crate::moves::moves_calculation::spec_moves_upto;
use crate::moves::moves_calculation::spec_pawn_capture;
use crate::moves::moves_calculation::spec_pawn_moves;
use crate::moves::moves_calculation::spec_pawn_pushes;
use crate::moves::moves_calculation::spec_piece_moves;
use crate::moves::moves_calculation::spec_step_moves;
use crate::moves::moves_calculation::target_board;
use crate::moves::moves_utils::Move;
use crate::position::Position;
use crate::types::bitboard::lemma_ones_below;
use crate::types::bitboard::spec_ones;
use crate::types::bits::lemma_count_bits_bound;
use crate::types::square::Square;
use crate::utils::zobrist::ZobristHasher;

verus! {

/// The number of lines of `plies` legal moves from `pos` that begin with
/// one of the first `n` of `moves`.
pub open spec fn spec_lines_through(
    pos: Position,
    keys: Seq<u64>,
    moves: Seq<Move>,
    n: int,
    plies: nat,
) -> nat
    decreases plies, 0nat, n,
{
    if n <= 0 || plies == 0 {
        0
    } else {
        spec_lines_through(pos, keys, moves, n - 1, plies) + spec_lines(
            pos.after_move(moves[n - 1], keys),
            keys,
            (plies - 1) as nat,
        )
    }
}

/// The number of lines of `plies` legal moves from `pos`.
pub open spec fn spec_lines(pos: Position, keys: Seq<u64>, plies: nat) -> nat
    decreases plies, 1nat, 0int,
{
    if plies == 0 {
        1
    } else {
        spec_lines_through(
            pos,
            keys,
            spec_legal_moves(pos),
            spec_legal_moves(pos).len() as int,
            plies,
        )
    }
}

/// The lines through fewer first moves are fewer.
proof fn lemma_lines_through_grows(pos: Position, keys: Seq<u64>, moves: Seq<Move>, i: int, n: int, plies: nat)
    requires
        0 <= i <= n,
    ensures
        spec_lines_through(pos, keys, moves, i, plies) <= spec_lines_through(pos, keys, moves, n, plies),
    decreases n - i,
{
    if i < n && plies > 0 {
        lemma_lines_through_grows(pos, keys, moves, i, n - 1, plies);
    }
}

/// With one ply to go, each first move is one line.
proof fn lemma_lines_through_one(pos: Position, keys: Seq<u64>, moves: Seq<Move>, n: int)
    requires
        0 <= n,
    ensures
        spec_lines_through(pos, keys, moves, n, 1) == n,
    decreases n,
{
    if n > 0 {
        lemma_lines_through_one(pos, keys, moves, n - 1);
        assert(spec_lines(pos.after_move(moves[n - 1], keys), keys, 0) == 1);
    }
}

/// What is kept of the first `n` moves is at most `n` moves.
proof fn lemma_kept_is_shorter(moves: Seq<Move>, keep: spec_fn(Move) -> bool, n: int)
    requires
        0 <= n,
    ensures
        kept(moves, keep, n).len() <= n,
    decreases n,
{
    if n > 0 {
        lemma_kept_is_shorter(moves, keep, n - 1);
    }
}

/// One piece has at most 66 moves: 64 squares to go to and two ways to
/// castle.
proof fn lemma_piece_moves_count(pos: Position, kind: int, s: int)
    ensures
        spec_piece_moves(pos, kind, s).len() <= 66,
{
    if kind == 4 {
        assert(spec_pawn_pushes(pos, s).len() <= 4);
        assert(spec_pawn_capture(pos, s, 1).len() <= 4);
        assert(spec_pawn_capture(pos, s, -1).len() <= 4);
        assert(spec_pawn_moves(pos, s).len() <= 12);
    } else {
        let targets = target_board(pos, kind, s);
        lemma_ones_below(targets, 64);
        lemma_count_bits_bound(targets, 64);
        assert(spec_step_moves(pos, kind, s).len() == spec_ones(targets).len());
        assert(spec_castling_moves(pos, s).len() <= 2);
    }
}

/// The pieces on `n` squares have at most 66 moves each.
proof fn lemma_moves_of_squares_count(pos: Position, kind: int, squares: Seq<Square>, n: int)
    requires
        0 <= n,
    ensures
        spec_moves_of_squares(pos, kind, squares, n).len() <= 66 * n,
    decreases n,
{
    if n > 0 {
        lemma_moves_of_squares_count(pos, kind, squares, n - 1);
        lemma_piece_moves_count(pos, kind, squares[n - 1].0 as int);
    }
}

/// The pieces of `n` kinds have at most 64 times 66 moves a kind.
proof fn lemma_moves_upto_count(pos: Position, n: int)
    requires
        0 <= n,
    ensures
        spec_moves_upto(pos, n).len() <= 4224 * n,
    decreases n,
{
    if n > 0 {
        lemma_moves_upto_count(pos, n - 1);
        let board = pos.piece_board(n - 1, pos.turn());
        lemma_ones_below(board, 64);
        lemma_count_bits_bound(board, 64);
        lemma_moves_of_squares_count(pos, n - 1, spec_ones(board), spec_ones(board).len() as int);
        assert(spec_moves_of_kind(pos, n - 1).len() <= 4224);
    }
}

/// A bound on the number of legal moves of any position: six kinds of
/// piece, each on at most 64 squares, each piece with at most 66 moves.
pub open spec fn moves_limit() -> nat {
    25344
}

/// No position has more legal moves than `moves_limit`.
pub proof fn lemma_legal_moves_count(pos: Position)
    ensures
        spec_legal_moves(pos).len() <= moves_limit(),
{
    lemma_moves_upto_count(pos, 6);
    lemma_kept_is_shorter(
        spec_all_moves(pos),
        |m: Move| crate::moves::legality::leaves_king_safe(pos, m),
        spec_all_moves(pos).len() as int,
    );
}

/// `base` to the power `exponent`.
pub open spec fn spec_power(base: nat, exponent: nat) -> nat
    decreases exponent,
{
    if exponent == 0 {
        1
    } else {
        base * spec_power(base, (exponent - 1) as nat)
    }
}

/// The lines through `n` first moves are at most `n` times the lines of
/// one move less.
proof fn lemma_lines_through_count(pos: Position, keys: Seq<u64>, moves: Seq<Move>, n: int, plies: nat)
    requires
        0 <= n,
        plies > 0,
    ensures
        spec_lines_through(pos, keys, moves, n, plies) <= n * spec_power(
            moves_limit(),
            (plies - 1) as nat,
        ),
    decreases plies, 0nat, n,
{
    let below = spec_power(moves_limit(), (plies - 1) as nat);
    if n > 0 {
        lemma_lines_through_count(pos, keys, moves, n - 1, plies);
        lemma_lines_count(pos.after_move(moves[n - 1], keys), keys, (plies - 1) as nat);
        assert((n - 1) * below + below == n * below) by (nonlinear_arith);
    } else {
        assert(0 * below == 0);
    }
}

/// The lines of `plies` moves are at most `moves_limit` to the power
/// `plies`.
pub proof fn lemma_lines_count(pos: Position, keys: Seq<u64>, plies: nat)
    ensures
        spec_lines(pos, keys, plies) <= spec_power(moves_limit(), plies),
    decreases plies, 1nat, 0int,
{
    if plies > 0 {
        let moves = spec_legal_moves(pos);
        let below = spec_power(moves_limit(), (plies - 1) as nat);
        lemma_legal_moves_count(pos);
        lemma_lines_through_count(pos, keys, moves, moves.len() as int, plies);
        assert(moves.len() * below <= moves_limit() * below) by (nonlinear_arith)
            requires
                moves.len() <= moves_limit(),
                below >= 0,
        ;
    }
}

/// The lines of one or two moves can be counted on every machine, those of
/// three or four moves on one whose words have 64 bits.
pub proof fn lemma_lines_fit(pos: Position, keys: Seq<u64>, plies: nat)
    requires
        plies <= 2 || (plies <= 4 && usize::MAX >= 0xffff_ffff_ffff_ffff),
    ensures
        spec_lines(pos, keys, plies) <= usize::MAX,
{
    lemma_lines_count(pos, keys, plies);
    reveal_with_fuel(spec_power, 5);
    assert(spec_power(moves_limit(), 0) == 1);
    assert(spec_power(moves_limit(), 1) == 25344);
    assert(spec_power(moves_limit(), 2) == 642318336);
    assert(spec_power(moves_limit(), 3) == 16278915907584);
    assert(spec_power(moves_limit(), 4) == 412572844761808896);
    assert(usize::MAX >= 0xffff_ffff);
}

/// Each side of a sound position has a king.
pub proof fn lemma_sound_has_kings(pos: Position)
    requires
        sound(pos),
    ensures
        pos.has_king(0),
        pos.has_king(1),
{
    let a = choose|s: int| #[trigger] pos.has(s, 5, 0) && forall|t: int| pos.has(t, 5, 0) ==> t == s;
    lemma_one_king_square(pos, 0, a);
    let b = choose|s: int| #[trigger] pos.has(s, 5, 1) && forall|t: int| pos.has(t, 5, 1) ==> t == s;
    lemma_one_king_square(pos, 1, b);
}

/// The number of lines of legal moves from `board` that reach depth
/// `max_depth`, the position on the board being at depth `depth` less one.
/// The board is afterwards what it was.
pub fn play_game(
    board: &mut Board,
    move_gen_masks: &MoveGenMasks,
    hasher: &ZobristHasher,
    depth: u8,
    max_depth: u8,
) -> (n_moves: usize)
    requires
        old(board).wf(),
        sound(old(board)@),
        move_gen_masks.wf(),
        depth <= max_depth,
        old(board)@.has_room(max_depth - depth + 1),
        spec_lines(old(board)@, hasher.keys(), (max_depth - depth + 1) as nat) <= usize::MAX,
    ensures
        n_moves == spec_lines(old(board)@, hasher.keys(), (max_depth - depth + 1) as nat),
        final(board)@ == old(board)@,
        final(board).colors == old(board).colors,
        final(board).pieces == old(board).pieces,
        final(board).all_pieces == old(board).all_pieces,
        final(board).wf(),
    decreases max_depth - depth,
{
    let ghost start = board@;
    let ghost keys = hasher.keys();
    let ghost plies = (max_depth - depth + 1) as nat;
    proof {
        lemma_sound_has_kings(start);
    }
    let legal_moves = board.get_legal_moves(move_gen_masks, hasher);

    if depth == max_depth {
        proof {
            lemma_lines_through_one(start, keys, legal_moves@, legal_moves@.len() as int);
        }
        return legal_moves.len();
    }
    let mut n_moves: usize = 0;
    let mut i: usize = 0;
    while i < legal_moves.len()
        invariant
            board@ == start,
            board.wf(),
            sound(start),
            start.has_room(max_depth - depth + 1),
            move_gen_masks.wf(),
            keys == hasher.keys(),
            depth < max_depth,
            plies == max_depth - depth + 1,
            legal_moves@ == spec_legal_moves(start),
            spec_lines(start, keys, plies) <= usize::MAX,
            i <= legal_moves.len(),
            n_moves == spec_lines_through(start, keys, legal_moves@, i as int, plies),
        decreases legal_moves.len() - i,
    {
        let legal_move = legal_moves[i];
        proof {
            assert(spec_legal_moves(start).contains(legal_move));
            lemma_legal_move_keeps_sound(start, legal_move, keys);
            lemma_lines_through_grows(
                start,
                keys,
                legal_moves@,
                i + 1,
                legal_moves@.len() as int,
                plies,
            );
            lemma_unmake_restores(start, legal_move, keys);
        }
        let unmake_move_helper = board.make_move(&legal_move, hasher);
        n_moves = n_moves + play_game(board, move_gen_masks, hasher, depth + 1, max_depth);
        board.unmake_move(unmake_move_helper);
        i = i + 1;
    }
    proof {
        lemma_view_determines_boards(*old(board), *board);
    }
    n_moves
}

/// The number of lines of legal moves from `board` that reach depth
/// `max_depth`, the position on the board being at depth `depth` less one,
/// where that number can be held; else nothing. The board is afterwards
/// what it was.
pub fn play_game_checked(
    board: &mut Board,
    move_gen_masks: &MoveGenMasks,
    hasher: &ZobristHasher,
    depth: u8,
    max_depth: u8,
) -> (n_moves: Option<usize>)
    requires
        old(board).wf(),
        sound(old(board)@),
        move_gen_masks.wf(),
        depth <= max_depth,
        old(board)@.has_room(max_depth - depth + 1),
    ensures
        match n_moves {
            Some(n) => n == spec_lines(old(board)@, hasher.keys(), (max_depth - depth + 1) as nat),
            None => spec_lines(old(board)@, hasher.keys(), (max_depth - depth + 1) as nat)
                > usize::MAX,
        },
        final(board)@ == old(board)@,
        final(board).colors == old(board).colors,
        final(board).pieces == old(board).pieces,
        final(board).all_pieces == old(board).all_pieces,
        final(board).wf(),
    decreases max_depth - depth,
{
    let ghost start = board@;
    let ghost keys = hasher.keys();
    let ghost plies = (max_depth - depth + 1) as nat;
    proof {
        lemma_sound_has_kings(start);
    }
    let legal_moves = board.get_legal_moves(move_gen_masks, hasher);

    if depth == max_depth {
        proof {
            lemma_lines_through_one(start, keys, legal_moves@, legal_moves@.len() as int);
        }
        return Some(legal_moves.len());
    }
    let mut n_moves: usize = 0;
    let mut i: usize = 0;
    while i < legal_moves.len()
        invariant
            board@ == start,
            start == old(board)@,
            old(board).wf(),
            board.wf(),
            sound(start),
            start.has_room(max_depth - depth + 1),
            move_gen_masks.wf(),
            keys == hasher.keys(),
            depth < max_depth,
            plies == max_depth - depth + 1,
            legal_moves@ == spec_legal_moves(start),
            i <= legal_moves.len(),
            n_moves == spec_lines_through(start, keys, legal_moves@, i as int, plies),
        decreases legal_moves.len() - i,
    {
        let legal_move = legal_moves[i];
        proof {
            assert(spec_legal_moves(start).contains(legal_move));
            lemma_legal_move_keeps_sound(start, legal_move, keys);
            lemma_lines_through_grows(
                start,
                keys,
                legal_moves@,
                i + 1,
                legal_moves@.len() as int,
                plies,
            );
            lemma_unmake_restores(start, legal_move, keys);
        }
        let unmake_move_helper = board.make_move(&legal_move, hasher);
        let below = play_game_checked(board, move_gen_masks, hasher, depth + 1, max_depth);
        board.unmake_move(unmake_move_helper);
        let sum = match below {
            Some(lines) => n_moves.checked_add(lines),
            None => None,
        };
        match sum {
            Some(lines) => {
                n_moves = lines;
            },
            None => {
                proof {
                    lemma_view_determines_boards(*old(board), *board);
                }
                return None;
            },
        }
        i = i + 1;
    }
    proof {
        lemma_view_determines_boards(*old(board), *board);
    }
    Some(n_moves)
}

} // verus!
