//! Which of the generated moves are legal: those that do not leave the
//! mover's own king attacked.

use vstd::prelude::*;
use vstd::std_specs::bits::u64_trailing_zeros;
use crate::moves::moves_calculation::all_applicable;
use crate::moves::moves_calculation::attacked_by;
use crate::moves::moves_calculation::attacks_from;
use crate::moves::moves_calculation::lemma_all_moves_applicable;
use crate::moves::moves_calculation::spec_all_moves;
use crate::moves::moves_calculation::spec_moves_upto;
use crate::moves::moves_calculation::spec_moves_of_kind;
use crate::moves::moves_calculation::spec_moves_of_squares;
use crate::moves::moves_calculation::spec_piece_moves;
use crate::moves::moves_calculation::spec_step_moves;
use crate::moves::moves_calculation::spec_pawn_pushes;
use crate::moves::moves_calculation::spec_pawn_capture;
use crate::moves::moves_calculation::spec_castling_moves;
use crate::moves::moves_calculation::target_board;
use crate::moves::moves_calculation::reaches;
use crate::moves::moves_calculation::pawn_attacks;
use crate::moves::geometry::lemma_slider_attacks_symmetric;
use crate::types::bitboard::spec_ones;
use crate::types::bitboard::lemma_spec_ones;
use crate::types::square::Square;
use crate::moves::moves_utils::Move;
use crate::position::Position;
use crate::types::bits::bit;
use crate::types::bits::lemma_board_of;
use crate::types::bits::lemma_board_of_agree;
use crate::types::bits::lemma_lowest_bit;

verus! {

/// The square of the king of `color`: the lowest, should there be more
/// than one.
pub open spec fn king_square(pos: Position, color: int) -> int {
    u64_trailing_zeros(pos.piece_board(5, color)) as int
}

/// The king of `color` is attacked.
pub open spec fn in_check(pos: Position, color: int) -> bool {
    attacked_by(pos, king_square(pos, color), 1 - color)
}

/// Once `m` is made, the king of the side that made it is not attacked.
pub open spec fn leaves_king_safe(pos: Position, m: Move) -> bool {
    !in_check(pos.moved(m), pos.turn())
}

/// Those of the first `n` of `moves` that satisfy `keep`, in their order.
pub open spec fn kept(moves: Seq<Move>, keep: spec_fn(Move) -> bool, n: int) -> Seq<Move>
    decreases n,
{
    if n <= 0 {
        Seq::<Move>::empty()
    } else if keep(moves[n - 1]) {
        kept(moves, keep, n - 1).push(moves[n - 1])
    } else {
        kept(moves, keep, n - 1)
    }
}

/// The legal moves of the side to move: the generated moves that leave
/// its king safe, in the order of the generator.
pub open spec fn spec_legal_moves(pos: Position) -> Seq<Move> {
    kept(spec_all_moves(pos), |m: Move| leaves_king_safe(pos, m), spec_all_moves(pos).len() as int)
}

/// The legal moves that take a piece: the one on their destination, or en
/// passant the pawn that just passed.
pub open spec fn spec_capture_moves(pos: Position) -> Seq<Move> {
    kept(spec_legal_moves(pos), |m: Move| pos.takes(m), spec_legal_moves(pos).len() as int)
}

/// Each move that was kept is one of the moves and satisfies `keep`.
pub proof fn lemma_kept_members(moves: Seq<Move>, keep: spec_fn(Move) -> bool, n: int)
    requires
        0 <= n <= moves.len(),
    ensures
        kept(moves, keep, n).len() <= n,
        forall|i: int|
            0 <= i < kept(moves, keep, n).len() ==> keep(#[trigger] kept(moves, keep, n)[i])
                && exists|j: int| 0 <= j < n && moves[j] == kept(moves, keep, n)[i],
    decreases n,
{
    if n > 0 {
        lemma_kept_members(moves, keep, n - 1);
        let prev = kept(moves, keep, n - 1);
        let cur = kept(moves, keep, n);
        assert forall|i: int| 0 <= i < cur.len() implies keep(#[trigger] cur[i]) && exists|j: int|
            0 <= j < n && moves[j] == cur[i] by {
            if i < prev.len() {
                assert(cur[i] == prev[i]);
                let j = choose|j: int| 0 <= j < n - 1 && moves[j] == prev[i];
                assert(moves[j] == cur[i]);
            } else {
                assert(moves[n - 1] == cur[i]);
            }
        }
    }
}

/// Whether a square is attacked depends on the pieces alone.
pub proof fn lemma_attacked_by_squares(p: Position, q: Position, s: int, by: int)
    requires
        p.squares == q.squares,
    ensures
        attacked_by(p, s, by) == attacked_by(q, s, by),
        king_square(p, by) == king_square(q, by),
{
    lemma_board_of_agree(|t: int| 0 <= t < 64 && p.squares[t].is_some(), |t: int| 0 <= t < 64 && q.squares[t].is_some());
    lemma_board_of_agree(|t: int| p.has(t, 5, by), |t: int| q.has(t, 5, by));
    if attacked_by(p, s, by) {
        let a = choose|a: int| 0 <= a < 64 && #[trigger] attacks_from(p, a, s, by);
        assert(attacks_from(q, a, s, by));
    }
    if attacked_by(q, s, by) {
        let a = choose|a: int| 0 <= a < 64 && #[trigger] attacks_from(q, a, s, by);
        assert(attacks_from(p, a, s, by));
    }
}

/// A side that has a king has one on `king_square`.
pub proof fn lemma_king_square(pos: Position, color: int)
    requires
        pos.has_king(color),
    ensures
        pos.piece_board(5, color) != 0,
        0 <= king_square(pos, color) < 64,
        pos.has(king_square(pos, color), 5, color),
{
    let board = pos.piece_board(5, color);
    let s = choose|s: int| #[trigger] pos.has(s, 5, color);
    lemma_board_of(|t: int| pos.has(t, 5, color), s);
    assert(bit(board, s));
    if board == 0 {
        crate::types::bits::lemma_bit_zero(s);
    }
    lemma_lowest_bit(board);
    lemma_board_of(|t: int| pos.has(t, 5, color), king_square(pos, color));
}

/// The side that makes a move still has a king afterwards, if it had one.
pub proof fn lemma_mover_keeps_king(pos: Position, m: Move)
    requires
        pos.applicable(m),
        pos.has_king(pos.turn()),
    ensures
        pos.moved(m).has_king(pos.turn()),
{
    let turn = pos.turn();
    let s = choose|s: int| #[trigger] pos.has(s, 5, turn);
    let after = pos.moved(m);
    let o = m.origin.0 as int;
    let d = m.destination.0 as int;
    if s == o {
        assert(pos.moving_kind(m) == 5);
        assert(after.has(d, 5, turn));
    } else {
        assert(after.has(s, 5, turn));
    }
}

/// Every legal move can be made, and leaves the king of the side that
/// makes it safe.
pub proof fn lemma_legal_moves_sound(pos: Position)
    requires
        pos.ready(),
    ensures
        all_applicable(pos, spec_legal_moves(pos)),
        forall|i: int|
            0 <= i < spec_legal_moves(pos).len() ==> leaves_king_safe(
                pos,
                #[trigger] spec_legal_moves(pos)[i],
            ),
{
    let all = spec_all_moves(pos);
    let legal = spec_legal_moves(pos);
    let keep = |m: Move| leaves_king_safe(pos, m);
    lemma_all_moves_applicable(pos);
    lemma_kept_members(all, keep, all.len() as int);
    assert forall|i: int| 0 <= i < legal.len() implies pos.applicable(#[trigger] legal[i])
        && leaves_king_safe(pos, legal[i]) by {
        assert(keep(legal[i]));
        let j = choose|j: int| 0 <= j < all.len() && all[j] == legal[i];
        assert(pos.applicable(all[j]));
    }
}

/// Every move of `moves` satisfies `holds`.
pub open spec fn all_moves_satisfy(moves: Seq<Move>, holds: spec_fn(Move) -> bool) -> bool {
    forall|i: int| 0 <= i < moves.len() ==> holds(#[trigger] moves[i])
}

/// What holds of the moves of two lists holds of the moves of the two
/// joined.
proof fn lemma_satisfy_join(a: Seq<Move>, b: Seq<Move>, holds: spec_fn(Move) -> bool)
    requires
        all_moves_satisfy(a, holds),
        all_moves_satisfy(b, holds),
    ensures
        all_moves_satisfy(a + b, holds),
{
    assert forall|i: int| 0 <= i < (a + b).len() implies holds(#[trigger] (a + b)[i]) by {
        if i < a.len() {
            assert((a + b)[i] == a[i]);
        } else {
            assert((a + b)[i] == b[i - a.len()]);
        }
    }
}

proof fn lemma_satisfy_squares(
    pos: Position,
    kind: int,
    squares: Seq<Square>,
    n: int,
    holds: spec_fn(Move) -> bool,
)
    requires
        0 <= n <= squares.len(),
        forall|k: int|
            0 <= k < squares.len() ==> all_moves_satisfy(
                #[trigger] spec_piece_moves(pos, kind, squares[k].0 as int),
                holds,
            ),
    ensures
        all_moves_satisfy(spec_moves_of_squares(pos, kind, squares, n), holds),
    decreases n,
{
    if n > 0 {
        lemma_satisfy_squares(pos, kind, squares, n - 1, holds);
        assert(all_moves_satisfy(spec_piece_moves(pos, kind, squares[n - 1].0 as int), holds));
        lemma_satisfy_join(
            spec_moves_of_squares(pos, kind, squares, n - 1),
            spec_piece_moves(pos, kind, squares[n - 1].0 as int),
            holds,
        );
    }
}

proof fn lemma_satisfy_upto(pos: Position, n: int, holds: spec_fn(Move) -> bool)
    requires
        0 <= n <= 6,
        forall|kind: int, s: int|
            0 <= kind < 6 && pos.has(s, kind, pos.turn()) ==> all_moves_satisfy(
                #[trigger] spec_piece_moves(pos, kind, s),
                holds,
            ),
    ensures
        all_moves_satisfy(spec_moves_upto(pos, n), holds),
    decreases n,
{
    if n > 0 {
        lemma_satisfy_upto(pos, n - 1, holds);
        let kind = n - 1;
        let board = pos.piece_board(kind, pos.turn());
        let squares = spec_ones(board);
        lemma_spec_ones(board);
        assert forall|k: int| 0 <= k < squares.len() implies all_moves_satisfy(
            #[trigger] spec_piece_moves(pos, kind, squares[k].0 as int),
            holds,
        ) by {
            lemma_board_of(|s: int| pos.has(s, kind, pos.turn()), squares[k].0 as int);
        }
        lemma_satisfy_squares(pos, kind, squares, squares.len() as int, holds);
        lemma_satisfy_join(spec_moves_upto(pos, n - 1), spec_moves_of_kind(pos, kind), holds);
    }
}

/// What holds of every move of every piece of the side to move holds of
/// every generated move.
pub proof fn lemma_all_moves_satisfy(pos: Position, holds: spec_fn(Move) -> bool)
    requires
        forall|kind: int, s: int|
            0 <= kind < 6 && pos.has(s, kind, pos.turn()) ==> all_moves_satisfy(
                #[trigger] spec_piece_moves(pos, kind, s),
                holds,
            ),
    ensures
        all_moves_satisfy(spec_all_moves(pos), holds),
{
    lemma_satisfy_upto(pos, 6, holds);
}

/// A move onto a piece of the other side is made by a piece that attacks
/// the square.
pub open spec fn capture_is_attack(pos: Position, m: Move) -> bool {
    pos.has_color(m.destination.0 as int, 1 - pos.turn()) ==> 0 <= m.origin.0 < 64 && attacks_from(
        pos,
        m.origin.0 as int,
        m.destination.0 as int,
        pos.turn(),
    )
}

proof fn lemma_piece_captures_attack(pos: Position, kind: int, s: int)
    requires
        pos.wf(),
        0 <= kind < 6,
        pos.has(s, kind, pos.turn()),
    ensures
        all_moves_satisfy(spec_piece_moves(pos, kind, s), |m: Move| capture_is_attack(pos, m)),
{
    let holds = |m: Move| capture_is_attack(pos, m);
    let turn = pos.turn();
    if kind == 4 {
        let pushes = spec_pawn_pushes(pos, s);
        let right = spec_pawn_capture(pos, s, 1);
        let left = spec_pawn_capture(pos, s, -1);
        assert(crate::position::is_pawn(pos.squares[s]));
        assert forall|i: int| 0 <= i < pushes.len() implies holds(#[trigger] pushes[i]) by {}
        assert forall|i: int| 0 <= i < right.len() implies holds(#[trigger] right[i]) by {
            let m = right[i];
            if pos.has_color(m.destination.0 as int, 1 - turn) {
                assert(pawn_attacks(s, m.destination.0 as int, turn));
            }
        }
        assert forall|i: int| 0 <= i < left.len() implies holds(#[trigger] left[i]) by {
            let m = left[i];
            if pos.has_color(m.destination.0 as int, 1 - turn) {
                assert(pawn_attacks(s, m.destination.0 as int, turn));
            }
        }
        lemma_satisfy_join(pushes, right, holds);
        lemma_satisfy_join(pushes + right, left, holds);
    } else {
        let board = target_board(pos, kind, s);
        let targets = spec_ones(board);
        lemma_spec_ones(board);
        let steps = spec_step_moves(pos, kind, s);
        assert forall|i: int| 0 <= i < steps.len() implies holds(#[trigger] steps[i]) by {
            let t = targets[i].0 as int;
            assert(bit(board, t));
            lemma_board_of(|u: int| reaches(pos, kind, s, u), t);
            assert(reaches(pos, kind, s, t));
            lemma_slider_attacks_symmetric(pos.occupancy(), s, t);
            assert(steps[i].destination.0 == t);
            assert(steps[i].origin.0 == s);
        }
        if kind == 5 {
            let castles = spec_castling_moves(pos, s);
            assert forall|i: int| 0 <= i < castles.len() implies holds(#[trigger] castles[i]) by {}
            lemma_satisfy_join(steps, castles, holds);
        }
    }
}

/// Every generated move onto a piece of the other side is made by a piece
/// that attacks the square.
pub proof fn lemma_captures_attack(pos: Position)
    requires
        pos.wf(),
    ensures
        all_moves_satisfy(spec_all_moves(pos), |m: Move| capture_is_attack(pos, m)),
{
    let holds = |m: Move| capture_is_attack(pos, m);
    assert forall|kind: int, s: int| 0 <= kind < 6 && pos.has(s, kind, pos.turn()) implies all_moves_satisfy(
        #[trigger] spec_piece_moves(pos, kind, s),
        holds,
    ) by {
        lemma_piece_captures_attack(pos, kind, s);
    }
    lemma_all_moves_satisfy(pos, holds);
}

/// The side `color` has exactly one king.
pub open spec fn one_king(pos: Position, color: int) -> bool {
    exists|s: int| #[trigger] pos.has(s, 5, color) && forall|t: int| pos.has(t, 5, color) ==> t == s
}

/// What holds of every position of a game: it is well formed, each side
/// has exactly one king, and the side not to move is not in check.
pub open spec fn sound(pos: Position) -> bool {
    &&& pos.wf()
    &&& one_king(pos, 0)
    &&& one_king(pos, 1)
    &&& !in_check(pos, 1 - pos.turn())
}

/// The one king of a side stands on `king_square`.
pub proof fn lemma_one_king_square(pos: Position, color: int, s: int)
    requires
        one_king(pos, color),
        pos.has(s, 5, color),
    ensures
        king_square(pos, color) == s,
        pos.has_king(color),
{
    lemma_king_square(pos, color);
}

/// A legal move in a sound position leads to a sound position: each side
/// still has exactly one king, and the side that moved is not in check.
pub proof fn lemma_legal_move_keeps_sound(pos: Position, m: Move, keys: Seq<u64>)
    requires
        sound(pos),
        pos.ready(),
        spec_legal_moves(pos).contains(m),
    ensures
        pos.applicable(m),
        sound(pos.after_move(m, keys)),
        !pos.has(m.destination.0 as int, 5, 1 - pos.turn()),
{
    let turn = pos.turn();
    let other = 1 - turn;
    let all = spec_all_moves(pos);
    let legal = spec_legal_moves(pos);
    let keep = |x: Move| leaves_king_safe(pos, x);
    let after = pos.after_move(m, keys);
    let o = m.origin.0 as int;
    let d = m.destination.0 as int;
    lemma_legal_moves_sound(pos);
    lemma_kept_members(all, keep, all.len() as int);
    let i = choose|i: int| 0 <= i < legal.len() && legal[i] == m;
    assert(pos.applicable(legal[i]) && leaves_king_safe(pos, legal[i]));
    let j = choose|j: int| 0 <= j < all.len() && all[j] == legal[i];
    lemma_captures_attack(pos);
    assert(capture_is_attack(pos, all[j]));
    crate::board::lemma_after_move_wf(pos, m, keys);

    // the move does not take the king: the king would be in check
    let their_king = choose|s: int| #[trigger]
        pos.has(s, 5, other) && forall|t: int| pos.has(t, 5, other) ==> t == s;
    lemma_one_king_square(pos, other, their_king);
    if d == their_king {
        assert(attacks_from(pos, o, d, turn));
        assert(attacked_by(pos, d, turn));
        assert(false);
    }
    assert(after.has(their_king, 5, other));
    assert forall|t: int| after.has(t, 5, other) implies t == their_king by {
        assert(pos.has(t, 5, other));
    }
    assert(one_king(after, other));

    // the mover's king moves at most, and no second one appears
    let our_king = choose|s: int| #[trigger]
        pos.has(s, 5, turn) && forall|t: int| pos.has(t, 5, turn) ==> t == s;
    let now = if o == our_king {
        d
    } else {
        our_king
    };
    if o == our_king {
        assert(pos.moving_kind(m) == 5);
    }
    assert(after.has(now, 5, turn));
    assert forall|t: int| after.has(t, 5, turn) implies t == now by {
        if t != d {
            assert(t != o);
            assert(pos.has(t, 5, turn));
            assert(t == our_king);
        } else {
            assert(m.promotion_piece.is_none());
            assert(pos.moving_kind(m) == 5);
            assert(pos.has(o, 5, turn));
            assert(o == our_king);
        }
    }
    assert(one_king(after, turn));

    // the side that moved is not in check
    lemma_attacked_by_squares(after, pos.moved(m), 0, turn);
    assert(king_square(after, turn) == king_square(pos.moved(m), turn));
    lemma_attacked_by_squares(after, pos.moved(m), king_square(after, turn), other);
    assert(!in_check(pos.moved(m), turn));
    assert(!in_check(after, turn));
    assert(after.turn() == other);
}

/// The move names the kind of the piece that it moves.
pub open spec fn names_its_piece(pos: Position, m: Move) -> bool {
    m.moving_piece as int == pos.moving_kind(m)
}

proof fn lemma_piece_moves_name_piece(pos: Position, kind: int, s: int)
    requires
        pos.wf(),
        0 <= kind < 6,
        pos.has(s, kind, pos.turn()),
    ensures
        all_moves_satisfy(spec_piece_moves(pos, kind, s), |m: Move| names_its_piece(pos, m)),
{
    let holds = |m: Move| names_its_piece(pos, m);
    if kind == 4 {
        let pushes = spec_pawn_pushes(pos, s);
        let right = spec_pawn_capture(pos, s, 1);
        let left = spec_pawn_capture(pos, s, -1);
        assert forall|i: int| 0 <= i < pushes.len() implies holds(#[trigger] pushes[i]) by {}
        assert forall|i: int| 0 <= i < right.len() implies holds(#[trigger] right[i]) by {}
        assert forall|i: int| 0 <= i < left.len() implies holds(#[trigger] left[i]) by {}
        lemma_satisfy_join(pushes, right, holds);
        lemma_satisfy_join(pushes + right, left, holds);
    } else {
        let steps = spec_step_moves(pos, kind, s);
        assert forall|i: int| 0 <= i < steps.len() implies holds(#[trigger] steps[i]) by {}
        if kind == 5 {
            let castles = spec_castling_moves(pos, s);
            assert forall|i: int| 0 <= i < castles.len() implies holds(#[trigger] castles[i]) by {}
            lemma_satisfy_join(steps, castles, holds);
        }
    }
}

/// Every generated move names the kind of the piece that it moves.
pub proof fn lemma_moves_name_their_piece(pos: Position)
    requires
        pos.wf(),
    ensures
        all_moves_satisfy(spec_all_moves(pos), |m: Move| names_its_piece(pos, m)),
{
    let holds = |m: Move| names_its_piece(pos, m);
    assert forall|kind: int, s: int| 0 <= kind < 6 && pos.has(s, kind, pos.turn()) implies all_moves_satisfy(
        #[trigger] spec_piece_moves(pos, kind, s),
        holds,
    ) by {
        lemma_piece_moves_name_piece(pos, kind, s);
    }
    lemma_all_moves_satisfy(pos, holds);
}

/// A side has exactly one king when the board of its kings holds exactly
/// one square.
pub proof fn lemma_one_king_count(pos: Position, color: int)
    ensures
        one_king(pos, color) == (pos.king_count(color) == 1),
{
    let board = pos.piece_board(5, color);
    let listed = spec_ones(board);
    lemma_spec_ones(board);
    assert forall|t: int| bit(board, t) == pos.has(t, 5, color) by {
        lemma_board_of(|s: int| pos.has(s, 5, color), t);
    }
    if one_king(pos, color) {
        let s = choose|s: int| #[trigger]
            pos.has(s, 5, color) && forall|t: int| pos.has(t, 5, color) ==> t == s;
        assert(bit(board, s));
        let k = choose|k: int| 0 <= k < listed.len() && (#[trigger] listed[k]).0 == s;
        if listed.len() > 1 {
            assert(bit(board, listed[0].0 as int));
            assert(bit(board, listed[1].0 as int));
            assert(listed[0].0 < listed[1].0);
        }
    }
    if pos.king_count(color) == 1 {
        let s = listed[0].0 as int;
        assert(bit(board, s));
        assert(pos.has(s, 5, color));
        assert forall|t: int| pos.has(t, 5, color) implies t == s by {
            assert(bit(board, t));
            let k = choose|k: int| 0 <= k < listed.len() && (#[trigger] listed[k]).0 == t;
        }
    }
}

} // verus!
