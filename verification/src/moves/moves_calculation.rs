//! The moves of the side to move, before the test for check: pawn pushes
//! and captures, promotions, en passant, the steps of knight and king, the
//! slides of rook, bishop and queen, and castling. And the test of whether a
//! square is attacked.

use vstd::prelude::*;
use crate::board::holds;
use crate::board::piece_at;
use crate::board::Board;
use crate::moves::geometry::bishop_attacks;
use crate::moves::geometry::file_of;
use crate::moves::geometry::king_step;
use crate::moves::geometry::knight_step;
use crate::moves::geometry::on_board;
use crate::moves::geometry::queen_attacks;
use crate::moves::geometry::rank_of;
use crate::moves::geometry::rook_attacks;
use crate::moves::geometry::slider_attacks;
use crate::moves::move_mask_gen::attack_board;
use crate::moves::move_mask_gen::king_board;
use crate::moves::move_mask_gen::MoveGenMasks;
use crate::moves::moves_utils::Move;
use crate::position::Position;
use crate::types::bitboard::spec_ones;
use crate::types::bitboard::ones_below;
use crate::types::bitboard::lemma_ones_below_next;
use crate::types::bitboard::lemma_ones_below_rest;
use crate::types::bits::popcount;
use crate::types::bitboard::BitBoard;
use crate::types::bits::bit;
use crate::types::bits::board_of;
use crate::types::bits::lemma_bit_and;
use crate::types::bits::lemma_bit_not;
use crate::types::bits::lemma_bit_or;
use crate::types::bits::lemma_board_of;
use crate::types::bits::lemma_board_of_unique;
use crate::types::piece::Color;
use crate::types::piece::Piece;
use crate::types::piece::Pieces;
use crate::types::square::Square;

verus! {

/// The squares between the king and the rook's side that must be empty
/// and safe for white to castle short: f1 and g1.
pub const CASTLING_WHITE_SHORT: u64 = 0x60;

/// The squares that must be safe for white to castle long: c1, d1, e1.
pub const CASTLING_WHITE_LONG_CHECKING: u64 = 0x1C;

/// The squares that must be empty for white to castle long: b1, c1, d1.
pub const CASTLING_WHITE_LONG_BLOCKING: u64 = 0xE;

/// The squares that must be empty and safe for black to castle short: f8
/// and g8.
pub const CASTLING_BLACK_SHORT: u64 = 0x6000000000000000;

/// The squares that must be safe for black to castle long: c8, d8, e8.
pub const CASTLING_BLACK_LONG_CHECKING: u64 = 0x1C00000000000000;

/// The squares that must be empty for black to castle long: b8, c8, d8.
pub const CASTLING_BLACK_LONG_BLOCKING: u64 = 0xE00000000000000;

/// A pawn of colour `by` on `a` attacks `s`: `s` is one rank ahead of it,
/// as `by` moves, and one file to the side.
pub open spec fn pawn_attacks(a: int, s: int, by: int) -> bool {
    &&& on_board(a)
    &&& on_board(s)
    &&& (file_of(a) - file_of(s) == 1 || file_of(s) - file_of(a) == 1)
    &&& rank_of(s) == rank_of(a) + if by == 0 {
        1int
    } else {
        -1int
    }
}

/// The piece of colour `by` on `a`, if there is one, attacks `s`: it is a
/// knight a jump away or a king a step away, a rook or queen on the rook's
/// attack from `s`, a bishop or queen on the bishop's attack from `s`, or a
/// pawn that attacks `s`.
pub open spec fn attacks_from(pos: Position, a: int, s: int, by: int) -> bool {
    let occ = pos.occupancy();
    ||| pos.has(a, 3, by) && knight_step(s, a)
    ||| pos.has(a, 5, by) && king_step(s, a)
    ||| (pos.has(a, 1, by) || pos.has(a, 0, by)) && rook_attacks(occ, s, a)
    ||| (pos.has(a, 2, by) || pos.has(a, 0, by)) && bishop_attacks(occ, s, a)
    ||| pos.has(a, 4, by) && pawn_attacks(a, s, by)
}

/// Some piece of colour `by` attacks `s`.
pub open spec fn attacked_by(pos: Position, s: int, by: int) -> bool {
    exists|a: int| 0 <= a < 64 && #[trigger] attacks_from(pos, a, s, by)
}

/// What the boards of a consistent `board` hold, in terms of its position.
pub proof fn lemma_boards_of_position(board: &Board)
    requires
        board.pieces_ok(),
        board.synced(),
    ensures
        board.all_pieces.0 == board@.occupancy(),
        forall|t: int| board.all_pieces.has(t) == (0 <= t < 64 && board@.squares[t].is_some()),
        forall|c: int, t: int|
            0 <= c < 2 ==> (#[trigger] board.colors[c].has(t)) == board@.has_color(t, c),
        forall|c: int, p: int, t: int|
            0 <= c < 2 && 0 <= p < 6 ==> (#[trigger] board.pieces[c][p].has(t)) == board@.has(t, p, c),
{
    let pos = board@;
    assert forall|c: int, p: int, t: int| 0 <= c < 2 && 0 <= p < 6 implies (
    #[trigger] board.pieces[c][p].has(t)) == pos.has(t, p, c) by {
        if 0 <= t < 64 {
            assert(holds(board.pieces, c, p, t) == (piece_at(board.pieces, t) == Some(
                Piece { piece: p as usize, color: c as usize },
            )));
        }
    }
    assert forall|c: int, t: int| 0 <= c < 2 implies (#[trigger] board.colors[c].has(t))
        == pos.has_color(t, c) by {
        if 0 <= t < 64 {
            assert(board.colors[c].has(t) == (piece_at(board.pieces, t) matches Some(q) && q.color
                == c));
        }
    }
    assert forall|t: int| board.all_pieces.has(t) == (0 <= t < 64 && pos.squares[t].is_some()) by {
        lemma_bit_or(board.colors[0].0, board.colors[1].0, t);
        if 0 <= t < 64 {
            assert(board.colors[0].has(t) == pos.has_color(t, 0));
            assert(board.colors[1].has(t) == pos.has_color(t, 1));
            assert(holds(board.pieces, 0, 0, t) == (piece_at(board.pieces, t) == Some(
                Piece { piece: 0, color: 0 },
            )));
            if pos.squares[t].is_some() {
                lemma_piece_at_wf(board, t);
            }
        }
    }
    let pred = |s: int| 0 <= s < 64 && pos.squares[s].is_some();
    assert forall|t: int| 0 <= t < 64 implies bit(board.all_pieces.0, t) == pred(t) by {
        assert(board.all_pieces.has(t) == (0 <= t < 64 && pos.squares[t].is_some()));
    }
    lemma_board_of_unique(pred, board.all_pieces.0);
}

/// What stands on a square is a piece of a real kind and colour.
pub proof fn lemma_piece_at_wf(board: &Board, t: int)
    ensures
        piece_at(board.pieces, t) matches Some(q) ==> q.wf(),
{
}

/// Whether the two boards share a square.
fn boards_meet(x: BitBoard, y: BitBoard) -> (r: bool)
    ensures
        r == exists|i: int| 0 <= i < 64 && #[trigger] x.has(i) && y.has(i),
{
    let both = BitBoard(x.0 & y.0);
    let r = !both.is_empty();
    proof {
        if r {
            let i = choose|i: int| both.has(i);
            lemma_bit_and(x.0, y.0, i);
            assert(x.has(i) && y.has(i));
        } else {
            assert forall|i: int| 0 <= i < 64 implies !(#[trigger] x.has(i) && y.has(i)) by {
                lemma_bit_and(x.0, y.0, i);
                assert(!both.has(i));
            }
        }
    }
    r
}

/// The squares that a rook on `square` attacks on `board`.
pub fn rook_attack_mask(square: &Square, board: &Board, move_gen_masks: &MoveGenMasks) -> (r: BitBoard)
    requires
        square.on_board(),
        board.pieces_ok(),
        board.synced(),
        move_gen_masks.wf(),
    ensures
        forall|t: int| r.has(t) == (0 <= t < 64 && rook_attacks(board@.occupancy(), square.0 as int, t)),
        r.0 == attack_board(false, board@.occupancy(), square.0 as int),
{
    let i = square.as_usize();
    proof {
        lemma_boards_of_position(board);
        assert(move_gen_masks.king_moves[i as int].0 == king_board(i as int));
    }
    let magic = &move_gen_masks.rook_magics[i];
    let index = magic.get_index(board.all_pieces);
    let r = move_gen_masks.rook_moves[i][index];
    proof {
        let occ = board@.occupancy();
        assert(move_gen_masks.rook_moves[i as int]@[magic.spec_index(occ)].0 == attack_board(
            false,
            occ,
            i as int,
        ));
        assert forall|t: int| r.has(t) == (0 <= t < 64 && rook_attacks(occ, i as int, t)) by {
            lemma_board_of(|t: int| slider_attacks(false, occ, i as int, t), t);
        }
    }
    r
}

/// The squares that a bishop on `square` attacks on `board`.
pub fn bishop_attack_mask(square: &Square, board: &Board, move_gen_masks: &MoveGenMasks) -> (r:
    BitBoard)
    requires
        square.on_board(),
        board.pieces_ok(),
        board.synced(),
        move_gen_masks.wf(),
    ensures
        forall|t: int|
            r.has(t) == (0 <= t < 64 && bishop_attacks(board@.occupancy(), square.0 as int, t)),
        r.0 == attack_board(true, board@.occupancy(), square.0 as int),
{
    let i = square.as_usize();
    proof {
        lemma_boards_of_position(board);
        assert(move_gen_masks.king_moves[i as int].0 == king_board(i as int));
    }
    let magic = &move_gen_masks.bishop_magics[i];
    let index = magic.get_index(board.all_pieces);
    let r = move_gen_masks.bishop_moves[i][index];
    proof {
        let occ = board@.occupancy();
        assert(move_gen_masks.bishop_moves[i as int]@[magic.spec_index(occ)].0 == attack_board(
            true,
            occ,
            i as int,
        ));
        assert forall|t: int| r.has(t) == (0 <= t < 64 && bishop_attacks(occ, i as int, t)) by {
            lemma_board_of(|t: int| slider_attacks(true, occ, i as int, t), t);
        }
    }
    r
}

/// The squares that a rook on `square` can move to: those it attacks but
/// the ones that hold a piece of the side to move.
pub fn get_rook_move_mask(square: &Square, board: &Board, move_gen_masks: &MoveGenMasks) -> (r:
    BitBoard)
    requires
        square.on_board(),
        board.pieces_ok(),
        board.synced(),
        board.state.turn < 2,
        move_gen_masks.wf(),
    ensures
        forall|t: int|
            r.has(t) == (0 <= t < 64 && rook_attacks(board@.occupancy(), square.0 as int, t)
                && !board@.has_color(t, board.state.turn as int)),
{
    let attacks = rook_attack_mask(square, board, move_gen_masks);
    let own = board.colors[board.state.turn];
    let r = BitBoard(attacks.0 & !own.0);
    proof {
        lemma_boards_of_position(board);
        assert forall|t: int|
            r.has(t) == (0 <= t < 64 && rook_attacks(board@.occupancy(), square.0 as int, t)
                && !board@.has_color(t, board.state.turn as int)) by {
            lemma_bit_and(attacks.0, !own.0, t);
            lemma_bit_not(own.0, t);
            assert(board.colors[board.state.turn as int].has(t) == board@.has_color(
                t,
                board.state.turn as int,
            ));
            assert(attacks.has(t) == (0 <= t < 64 && rook_attacks(
                board@.occupancy(),
                square.0 as int,
                t,
            )));
        }
    }
    r
}

/// The squares that a bishop on `square` can move to: those it attacks
/// but the ones that hold a piece of the side to move.
pub fn get_bishop_move_mask(square: &Square, board: &Board, move_gen_masks: &MoveGenMasks) -> (r:
    BitBoard)
    requires
        square.on_board(),
        board.pieces_ok(),
        board.synced(),
        board.state.turn < 2,
        move_gen_masks.wf(),
    ensures
        forall|t: int|
            r.has(t) == (0 <= t < 64 && bishop_attacks(board@.occupancy(), square.0 as int, t)
                && !board@.has_color(t, board.state.turn as int)),
{
    let attacks = bishop_attack_mask(square, board, move_gen_masks);
    let own = board.colors[board.state.turn];
    let r = BitBoard(attacks.0 & !own.0);
    proof {
        lemma_boards_of_position(board);
        assert forall|t: int|
            r.has(t) == (0 <= t < 64 && bishop_attacks(board@.occupancy(), square.0 as int, t)
                && !board@.has_color(t, board.state.turn as int)) by {
            lemma_bit_and(attacks.0, !own.0, t);
            lemma_bit_not(own.0, t);
            assert(board.colors[board.state.turn as int].has(t) == board@.has_color(
                t,
                board.state.turn as int,
            ));
            assert(attacks.has(t) == (0 <= t < 64 && bishop_attacks(
                board@.occupancy(),
                square.0 as int,
                t,
            )));
        }
    }
    r
}

/// Whether a pawn of `attacker` stands where it attacks `square` from the
/// file `file_step` to the side.
fn pawn_attacks_from_side(square: &Square, board: &Board, attacker: usize, file_step: i8) -> (r:
    bool)
    requires
        square.on_board(),
        board.pieces_ok(),
        board.synced(),
        attacker < 2,
        file_step == 1 || file_step == -1,
    ensures
        r == exists|a: int|
            0 <= a < 64 && file_of(a) == file_of(square.0 as int) + file_step && board@.has(
                a,
                4,
                attacker as int,
            ) && #[trigger] pawn_attacks(a, square.0 as int, attacker as int),
{
    let ghost s = square.0 as int;
    let rank: i8 = square.get_rank() as i8;
    let file: i8 = square.get_file() as i8;
    // a pawn attacks the rank ahead of it: it stands on the rank behind
    let from_rank: i8 = if attacker == Color::WHITE {
        rank - 1
    } else {
        rank + 1
    };
    let from_file: i8 = file + file_step;
    if from_rank < 0 || from_rank > 7 || from_file < 0 || from_file > 7 {
        proof {
            assert forall|a: int|
                0 <= a < 64 && file_of(a) == file_of(s) + file_step && board@.has(
                    a,
                    4,
                    attacker as int,
                ) implies !#[trigger] pawn_attacks(a, s, attacker as int) by {}
        }
        return false;
    }
    let attacking_square = Square::new((from_rank * 8 + from_file) as u8);
    let r = board.pieces[attacker][Pieces::PAWN].read_square(&attacking_square);
    proof {
        lemma_boards_of_position(board);
        let a0 = attacking_square.0 as int;
        assert(board.pieces[attacker as int][4].has(a0) == board@.has(a0, 4, attacker as int));
        if r {
            assert(pawn_attacks(a0, s, attacker as int));
        } else {
            assert forall|a: int|
                0 <= a < 64 && file_of(a) == file_of(s) + file_step && board@.has(
                    a,
                    4,
                    attacker as int,
                ) implies !#[trigger] pawn_attacks(a, s, attacker as int) by {
                if pawn_attacks(a, s, attacker as int) {
                    assert(a == a0);
                }
            }
        }
    }
    r
}

/// Whether a piece of `attacker` attacks `square`.
pub fn square_attacked_by(
    square: &Square,
    board: &Board,
    move_gen_masks: &MoveGenMasks,
    attacker: usize,
) -> (r: bool)
    requires
        square.on_board(),
        board.pieces_ok(),
        board.synced(),
        move_gen_masks.wf(),
        attacker < 2,
    ensures
        r == attacked_by(board@, square.0 as int, attacker as int),
{
    let ghost s = square.0 as int;
    let ghost pos = board@;
    let ghost by = attacker as int;
    let ghost occ = pos.occupancy();
    let square_usize = square.as_usize();
    proof {
        lemma_boards_of_position(board);
        assert(move_gen_masks.king_moves[s].0 == king_board(s));
    }
    let knights = boards_meet(
        move_gen_masks.knight_moves[square_usize],
        board.pieces[attacker][Pieces::KNIGHT],
    );
    let kings = boards_meet(
        move_gen_masks.king_moves[square_usize],
        board.pieces[attacker][Pieces::KING],
    );
    let straight = BitBoard(
        board.pieces[attacker][Pieces::ROOK].0 | board.pieces[attacker][Pieces::QUEEN].0,
    );
    let diagonal = BitBoard(
        board.pieces[attacker][Pieces::BISHOP].0 | board.pieces[attacker][Pieces::QUEEN].0,
    );
    let rook_move_mask = rook_attack_mask(square, board, move_gen_masks);
    let rooks = boards_meet(rook_move_mask, straight);
    let bishop_move_mask = bishop_attack_mask(square, board, move_gen_masks);
    let bishops = boards_meet(bishop_move_mask, diagonal);
    let pawn_right = pawn_attacks_from_side(square, board, attacker, 1);
    let pawn_left = pawn_attacks_from_side(square, board, attacker, -1);
    let r = knights || kings || rooks || bishops || pawn_right || pawn_left;
    proof {
        let knight_table = move_gen_masks.knight_moves[s];
        let king_table = move_gen_masks.king_moves[s];
        assert forall|a: int| 0 <= a < 64 implies knight_table.has(a) == knight_step(s, a) by {
            lemma_board_of(|t: int| knight_step(s, t), a);
        }
        assert forall|a: int| 0 <= a < 64 implies king_table.has(a) == king_step(s, a) by {
            lemma_board_of(|t: int| king_step(s, t), a);
        }
        assert forall|a: int| 0 <= a < 64 implies straight.has(a) == (pos.has(a, 1, by) || pos.has(
            a,
            0,
            by,
        )) by {
            lemma_bit_or(board.pieces[by][1].0, board.pieces[by][0].0, a);
            assert(board.pieces[by][1].has(a) == pos.has(a, 1, by));
            assert(board.pieces[by][0].has(a) == pos.has(a, 0, by));
        }
        assert forall|a: int| 0 <= a < 64 implies diagonal.has(a) == (pos.has(a, 2, by) || pos.has(
            a,
            0,
            by,
        )) by {
            lemma_bit_or(board.pieces[by][2].0, board.pieces[by][0].0, a);
            assert(board.pieces[by][2].has(a) == pos.has(a, 2, by));
            assert(board.pieces[by][0].has(a) == pos.has(a, 0, by));
        }
        if r {
            if knights {
                let a = choose|a: int|
                    0 <= a < 64 && #[trigger] knight_table.has(a) && board.pieces[by][3].has(a);
                assert(board.pieces[by][3].has(a) == pos.has(a, 3, by));
                assert(attacks_from(pos, a, s, by));
            } else if kings {
                let a = choose|a: int|
                    0 <= a < 64 && #[trigger] king_table.has(a) && board.pieces[by][5].has(a);
                assert(board.pieces[by][5].has(a) == pos.has(a, 5, by));
                assert(attacks_from(pos, a, s, by));
            } else if rooks {
                let a = choose|a: int| 0 <= a < 64 && #[trigger] rook_move_mask.has(a) && straight.has(a);
                assert(attacks_from(pos, a, s, by));
            } else if bishops {
                let a = choose|a: int|
                    0 <= a < 64 && #[trigger] bishop_move_mask.has(a) && diagonal.has(a);
                assert(attacks_from(pos, a, s, by));
            } else if pawn_right {
                let a = choose|a: int|
                    0 <= a < 64 && file_of(a) == file_of(s) + 1 && pos.has(a, 4, by)
                        && #[trigger] pawn_attacks(a, s, by);
                assert(attacks_from(pos, a, s, by));
            } else {
                let a = choose|a: int|
                    0 <= a < 64 && file_of(a) == file_of(s) + (-1) && pos.has(a, 4, by)
                        && #[trigger] pawn_attacks(a, s, by);
                assert(attacks_from(pos, a, s, by));
            }
        } else {
            assert forall|a: int| 0 <= a < 64 implies !#[trigger] attacks_from(pos, a, s, by) by {
                assert(board.pieces[by][3].has(a) == pos.has(a, 3, by));
                assert(board.pieces[by][5].has(a) == pos.has(a, 5, by));
                assert(!(knight_table.has(a) && board.pieces[by][3].has(a)));
                assert(!(king_table.has(a) && board.pieces[by][5].has(a)));
                assert(!(rook_move_mask.has(a) && straight.has(a)));
                assert(!(bishop_move_mask.has(a) && diagonal.has(a)));
                if pos.has(a, 4, by) && pawn_attacks(a, s, by) {
                    if file_of(a) == file_of(s) + 1 {
                        assert(false);
                    } else {
                        assert(file_of(a) == file_of(s) + (-1));
                        assert(false);
                    }
                }
            }
        }
    }
    r
}

/// Whether a piece of the side not to move attacks `square`.
pub fn is_square_in_check(square: &Square, board: &Board, move_gen_masks: &MoveGenMasks) -> (r: bool)
    requires
        square.on_board(),
        board.pieces_ok(),
        board.synced(),
        move_gen_masks.wf(),
        board.state.opponent < 2,
    ensures
        r == attacked_by(board@, square.0 as int, board.state.opponent as int),
{
    square_attacked_by(square, board, move_gen_masks, board.state.opponent)
}

/// The plain move of the piece of kind `piece` from `origin` to
/// `destination`.
pub open spec fn plain_move(origin: Square, destination: Square, piece: usize) -> Move {
    Move {
        origin,
        destination,
        moving_piece: piece,
        promotion_piece: None,
        special_move: None,
        capture: None,
    }
}

/// The plain moves of the piece of kind `piece` from `origin` to each of
/// `targets`, in their order.
pub open spec fn moves_to(origin: Square, piece: usize, targets: Seq<Square>) -> Seq<Move> {
    Seq::new(targets.len(), |i: int| plain_move(origin, targets[i], piece))
}

/// `base` as a promotion to each of queen, knight, rook and bishop, in
/// that order.
pub open spec fn promotion_moves(base: Move) -> Seq<Move> {
    seq![
        Move { promotion_piece: Some(0), ..base },
        Move { promotion_piece: Some(3), ..base },
        Move { promotion_piece: Some(1), ..base },
        Move { promotion_piece: Some(2), ..base },
    ]
}

/// `base` alone, or its four promotions if `promotes`.
pub open spec fn step_or_promotions(base: Move, promotes: bool) -> Seq<Move> {
    if promotes {
        promotion_moves(base)
    } else {
        seq![base]
    }
}

/// Whether a piece of kind `kind` of the side to move, standing on `s`,
/// reaches `t` by its ordinary move: `t` is on its attack and holds no piece
/// of its own side. Pawns have their own rules and reach nothing here.
pub open spec fn reaches(pos: Position, kind: int, s: int, t: int) -> bool {
    let occ = pos.occupancy();
    0 <= t < 64 && !pos.has_color(t, pos.turn()) && if kind == 0 {
        queen_attacks(occ, s, t)
    } else if kind == 1 {
        rook_attacks(occ, s, t)
    } else if kind == 2 {
        bishop_attacks(occ, s, t)
    } else if kind == 3 {
        knight_step(s, t)
    } else if kind == 5 {
        king_step(s, t)
    } else {
        false
    }
}

/// The squares that a piece of kind `kind` on `s` reaches, as a board.
pub open spec fn target_board(pos: Position, kind: int, s: int) -> u64 {
    board_of(|t: int| reaches(pos, kind, s, t))
}

/// The ordinary moves of a piece of kind `kind` on `s`, lowest destination
/// first.
pub open spec fn spec_step_moves(pos: Position, kind: int, s: int) -> Seq<Move> {
    moves_to(Square(s as u8), kind as usize, spec_ones(target_board(pos, kind, s)))
}

/// Appends the plain moves from `origin` to each square of `mask`, lowest
/// first.
fn push_moves_from_mask(out: &mut Vec<Move>, origin: &Square, mask: BitBoard, piece: usize)
    ensures
        final(out)@ == old(out)@ + moves_to(*origin, piece, spec_ones(mask.0)),
{
    let ghost x = mask.0;
    let ghost start = out@;
    let ghost mut low: int = 0;
    let mut rest = mask;
    proof {
        assert(out@ =~= start + moves_to(*origin, piece, ones_below(x, 0)));
    }
    while rest.0 != 0
        invariant
            0 <= low <= 64,
            forall|i: int| bit(rest.0, i) == (bit(x, i) && i >= low),
            out@ == start + moves_to(*origin, piece, ones_below(x, low)),
        decreases popcount(rest.0),
    {
        let ghost before = rest;
        assert(forall|i: int| #[trigger] before.has(i) == (bit(x, i) && i >= low));
        let destination = rest.pop_lsb();
        out.push(Move::from_origin_and_destination(&destination, origin, piece));
        proof {
            let next = destination.0 as int;
            assert(before.has(next));
            assert forall|i: int| low <= i < next implies !bit(x, i) by {
                if bit(x, i) {
                    assert(before.has(i));
                }
            }
            lemma_ones_below_next(x, low, next);
            assert forall|i: int| bit(rest.0, i) == (bit(x, i) && i >= next + 1) by {
                assert(rest.has(i) == (before.has(i) && i != next));
                if before.has(i) {
                    assert(next <= i);
                }
            }
            assert(out@ =~= start + moves_to(*origin, piece, ones_below(x, next + 1)));
            low = next + 1;
        }
    }
    proof {
        assert forall|i: int| low <= i < 64 implies !bit(x, i) by {
            crate::types::bits::lemma_bit_zero(i);
        }
        lemma_ones_below_rest(x, low);
    }
}

/// The plain moves from `origin` to each square of `mask`, lowest first.
fn moves_from_mask(origin: &Square, mask: BitBoard, piece: usize) -> (result: Vec<Move>)
    ensures
        result@ == moves_to(*origin, piece, spec_ones(mask.0)),
{
    let mut all_moves: Vec<Move> = Vec::new();
    push_moves_from_mask(&mut all_moves, origin, mask, piece);
    proof {
        assert(all_moves@ =~= moves_to(*origin, piece, spec_ones(mask.0)));
    }
    all_moves
}

/// The squares that the knight on `square` reaches.
fn knight_mask(square: &Square, move_gen_masks: &MoveGenMasks, board: &Board) -> (mask: BitBoard)
    requires
        square.on_board(),
        board.pieces_ok(),
        board.synced(),
        board.state.turn < 2,
        move_gen_masks.wf(),
    ensures
        mask.0 == target_board(board@, 3, square.0 as int),
{
    let ghost s = square.0 as int;
    let ghost pos = board@;
    let table = move_gen_masks.knight_moves[square.as_usize()];
    let own = board.colors[board.state.turn];
    let mask = BitBoard(table.0 & !own.0);
    proof {
        lemma_boards_of_position(board);
        assert(move_gen_masks.king_moves[s].0 == king_board(s));
        let pred = |t: int| reaches(pos, 3, s, t);
        assert forall|t: int| 0 <= t < 64 implies bit(mask.0, t) == pred(t) by {
            lemma_bit_and(table.0, !own.0, t);
            lemma_bit_not(own.0, t);
            lemma_board_of(|u: int| knight_step(s, u), t);
            assert(board.colors[board.state.turn as int].has(t) == pos.has_color(t, pos.turn()));
        }
        lemma_board_of_unique(pred, mask.0);
    }
    mask
}

/// The moves of the knight on `square`.
pub fn get_knight_moves(square: &Square, move_gen_masks: &MoveGenMasks, board: &Board) -> (result:
    Vec<Move>)
    requires
        square.on_board(),
        board.pieces_ok(),
        board.synced(),
        board.state.turn < 2,
        move_gen_masks.wf(),
    ensures
        result@ == spec_step_moves(board@, 3, square.0 as int),
{
    moves_from_mask(square, knight_mask(square, move_gen_masks, board), Pieces::KNIGHT)
}

/// The squares that the king on `square` steps to.
fn king_mask(square: &Square, move_gen_masks: &MoveGenMasks, board: &Board) -> (mask: BitBoard)
    requires
        square.on_board(),
        board.pieces_ok(),
        board.synced(),
        board.state.turn < 2,
        move_gen_masks.wf(),
    ensures
        mask.0 == target_board(board@, 5, square.0 as int),
{
    let ghost s = square.0 as int;
    let ghost pos = board@;
    let table = move_gen_masks.king_moves[square.as_usize()];
    let own = board.colors[board.state.turn];
    let mask = BitBoard(table.0 & !own.0);
    proof {
        lemma_boards_of_position(board);
        assert(move_gen_masks.king_moves[s].0 == king_board(s));
        let pred = |t: int| reaches(pos, 5, s, t);
        assert forall|t: int| 0 <= t < 64 implies bit(mask.0, t) == pred(t) by {
            lemma_bit_and(table.0, !own.0, t);
            lemma_bit_not(own.0, t);
            lemma_board_of(|u: int| king_step(s, u), t);
            assert(board.colors[board.state.turn as int].has(t) == pos.has_color(t, pos.turn()));
        }
        lemma_board_of_unique(pred, mask.0);
    }
    mask
}

/// The squares that the rook, bishop or queen `piece` on `square` reaches.
fn slider_mask(square: &Square, board: &Board, move_gen_masks: &MoveGenMasks, piece: usize) -> (mask:
    BitBoard)
    requires
        square.on_board(),
        board.pieces_ok(),
        board.synced(),
        board.state.turn < 2,
        move_gen_masks.wf(),
        piece == Pieces::ROOK || piece == Pieces::BISHOP || piece == Pieces::QUEEN,
    ensures
        mask.0 == target_board(board@, piece as int, square.0 as int),
{
    let ghost s = square.0 as int;
    let ghost pos = board@;
    let possible_moves = if piece == Pieces::ROOK {
        get_rook_move_mask(square, board, move_gen_masks)
    } else if piece == Pieces::BISHOP {
        get_bishop_move_mask(square, board, move_gen_masks)
    } else {
        let straight = get_rook_move_mask(square, board, move_gen_masks);
        let diagonal = get_bishop_move_mask(square, board, move_gen_masks);
        let both = BitBoard(straight.0 | diagonal.0);
        proof {
            assert forall|t: int| both.has(t) == (straight.has(t) || diagonal.has(t)) by {
                lemma_bit_or(straight.0, diagonal.0, t);
            }
        }
        both
    };
    proof {
        let pred = |t: int| reaches(pos, piece as int, s, t);
        assert forall|t: int| 0 <= t < 64 implies bit(possible_moves.0, t) == pred(t) by {
            assert(possible_moves.has(t) == bit(possible_moves.0, t));
        }
        lemma_board_of_unique(pred, possible_moves.0);
    }
    possible_moves
}

/// The moves of the rook, bishop or queen `piece` on `square`.
pub fn get_slidy_boii_moves(
    square: &Square,
    board: &Board,
    move_gen_masks: &MoveGenMasks,
    piece: usize,
) -> (result: Vec<Move>)
    requires
        square.on_board(),
        board.pieces_ok(),
        board.synced(),
        board.state.turn < 2,
        move_gen_masks.wf(),
        piece == Pieces::ROOK || piece == Pieces::BISHOP || piece == Pieces::QUEEN,
    ensures
        result@ == spec_step_moves(board@, piece as int, square.0 as int),
{
    moves_from_mask(square, slider_mask(square, board, move_gen_masks, piece), piece)
}

/// The castling move of the king from `origin` to `destination`.
pub open spec fn castling_move(origin: Square, destination: Square) -> Move {
    Move { special_move: Some(false), ..plain_move(origin, destination, 5) }
}

/// Whether the side to move may castle short with its king on `king`: it
/// holds the right, the two squares beside the king towards the rook are
/// empty and not attacked, and the king is not attacked.
pub open spec fn can_castle_short(pos: Position, king: int) -> bool {
    let turn = pos.turn();
    let base = if turn == 0 {
        0int
    } else {
        56int
    };
    &&& pos.state.castling.spec_right(turn, false)
    &&& pos.is_empty(base + 5)
    &&& pos.is_empty(base + 6)
    &&& !attacked_by(pos, base + 5, 1 - turn)
    &&& !attacked_by(pos, base + 6, 1 - turn)
    &&& !attacked_by(pos, king, 1 - turn)
}

/// Whether the side to move may castle long: it holds the right, the
/// three squares between king and rook are empty, and the king's square and
/// the two it crosses are not attacked.
pub open spec fn can_castle_long(pos: Position) -> bool {
    let turn = pos.turn();
    let base = if turn == 0 {
        0int
    } else {
        56int
    };
    &&& pos.state.castling.spec_right(turn, true)
    &&& pos.is_empty(base + 1)
    &&& pos.is_empty(base + 2)
    &&& pos.is_empty(base + 3)
    &&& !attacked_by(pos, base + 2, 1 - turn)
    &&& !attacked_by(pos, base + 3, 1 - turn)
    &&& !attacked_by(pos, base + 4, 1 - turn)
}

/// The castling moves of the side to move with its king on `king`: short
/// before long.
pub open spec fn spec_castling_moves(pos: Position, king: int) -> Seq<Move> {
    let base = if pos.turn() == 0 {
        0int
    } else {
        56int
    };
    (if can_castle_short(pos, king) {
        seq![castling_move(Square((base + 4) as u8), Square((base + 6) as u8))]
    } else {
        Seq::<Move>::empty()
    }) + (if can_castle_long(pos) {
        seq![castling_move(Square((base + 4) as u8), Square((base + 2) as u8))]
    } else {
        Seq::<Move>::empty()
    })
}

/// Whether `square` is empty and no piece of the side not to move attacks
/// it.
fn empty_and_safe(square: &Square, board: &Board, move_gen_masks: &MoveGenMasks) -> (r: bool)
    requires
        square.on_board(),
        board.pieces_ok(),
        board.synced(),
        move_gen_masks.wf(),
        board.state.opponent < 2,
    ensures
        r == (board@.is_empty(square.0 as int) && !attacked_by(
            board@,
            square.0 as int,
            board.state.opponent as int,
        )),
{
    proof {
        lemma_boards_of_position(board);
    }
    !board.all_pieces.read_square(square) && !is_square_in_check(square, board, move_gen_masks)
}

/// The castling moves of the side to move, its king standing on `square`.
pub fn get_castling_moves(square: &Square, board: &Board, move_gen_masks: &MoveGenMasks) -> (result:
    Vec<Move>)
    requires
        square.on_board(),
        board.pieces_ok(),
        board.synced(),
        move_gen_masks.wf(),
        board.state.turn < 2,
        board.state.opponent == 1 - board.state.turn,
    ensures
        result@ == spec_castling_moves(board@, square.0 as int),
{
    let ghost pos = board@;
    let (can_short, can_long) = board.state.castling.can_castle(board.state.turn);
    let mut castling_moves: Vec<Move> = Vec::new();
    let base: u8 = if board.state.turn == Color::WHITE {
        0
    } else {
        56
    };
    proof {
        lemma_boards_of_position(board);
    }
    if can_short {
        if empty_and_safe(&Square::new(base + 5), board, move_gen_masks) && empty_and_safe(
            &Square::new(base + 6),
            board,
            move_gen_masks,
        ) && !is_square_in_check(square, board, move_gen_masks) {
            let mut castling_move = Move::from_origin_and_destination(
                &Square::new(base + 6),
                &Square::new(base + 4),
                Pieces::KING,
            );
            castling_move.set_castling();
            castling_moves.push(castling_move);
        }
    }
    assert(castling_moves@ =~= (if can_castle_short(pos, square.0 as int) {
        seq![castling_move(Square((base + 4) as u8), Square((base + 6) as u8))]
    } else {
        Seq::<Move>::empty()
    }));
    let ghost shorts = castling_moves@;

    if can_long {
        if !board.all_pieces.read_square(&Square::new(base + 1)) && empty_and_safe(
            &Square::new(base + 2),
            board,
            move_gen_masks,
        ) && empty_and_safe(&Square::new(base + 3), board, move_gen_masks) && !is_square_in_check(
            &Square::new(base + 4),
            board,
            move_gen_masks,
        ) {
            let mut castling_move = Move::from_origin_and_destination(
                &Square::new(base + 2),
                &Square::new(base + 4),
                Pieces::KING,
            );
            castling_move.set_castling();
            castling_moves.push(castling_move);
        }
    }
    assert(castling_moves@ =~= shorts + (if can_castle_long(pos) {
        seq![castling_move(Square((base + 4) as u8), Square((base + 2) as u8))]
    } else {
        Seq::<Move>::empty()
    }));
    castling_moves
}

/// The moves of the king on `square`: its steps, then castling.
pub fn get_king_moves(square: &Square, move_gen_masks: &MoveGenMasks, board: &Board) -> (result: Vec<
    Move,
>)
    requires
        square.on_board(),
        board.pieces_ok(),
        board.synced(),
        move_gen_masks.wf(),
        board.state.turn < 2,
        board.state.opponent == 1 - board.state.turn,
    ensures
        result@ == spec_step_moves(board@, 5, square.0 as int) + spec_castling_moves(
            board@,
            square.0 as int,
        ),
{
    let mut moves = moves_from_mask(square, king_mask(square, move_gen_masks, board), Pieces::KING);
    let mut castling = get_castling_moves(square, board, move_gen_masks);
    moves.append(&mut castling);
    moves
}

/// The square `steps` ranks ahead of `s`, as `turn` moves.
pub open spec fn pawn_forward(s: int, turn: int, steps: int) -> int {
    if turn == 0 {
        s + 8 * steps
    } else {
        s - 8 * steps
    }
}

/// A pawn that reaches `t` promotes: `t` is on the first or the eighth
/// rank.
pub open spec fn promotes_on(t: int) -> bool {
    rank_of(t) == 0 || rank_of(t) == 7
}

/// The double push of the pawn from `origin` to `destination`.
pub open spec fn double_push_move(origin: Square, destination: Square) -> Move {
    Move { special_move: Some(true), ..plain_move(origin, destination, 4) }
}

/// The pushes of the pawn on `s`: nothing if the square ahead is taken;
/// the four promotions if it is on the last rank; else the single push and,
/// from the pawn's home rank with the second square free too, the double
/// push.
pub open spec fn spec_pawn_pushes(pos: Position, s: int) -> Seq<Move> {
    let turn = pos.turn();
    let one = pawn_forward(s, turn, 1);
    let two = pawn_forward(s, turn, 2);
    let home = if turn == 0 {
        1int
    } else {
        6int
    };
    let single = plain_move(Square(s as u8), Square(one as u8), 4);
    if !pos.is_empty(one) {
        Seq::<Move>::empty()
    } else if promotes_on(one) {
        promotion_moves(single)
    } else if rank_of(s) == home && pos.is_empty(two) {
        seq![single, double_push_move(Square(s as u8), Square(two as u8))]
    } else {
        seq![single]
    }
}

/// The capture of the pawn on `s` towards the file `side` to the side:
/// there if a piece of the other side stands on the square or it is the
/// en-passant target, as four promotions on the last rank.
pub open spec fn spec_pawn_capture(pos: Position, s: int, side: int) -> Seq<Move> {
    let turn = pos.turn();
    let one = pawn_forward(s, turn, 1);
    let file = file_of(s) + side;
    let t = rank_of(one) * 8 + file;
    if 0 <= file < 8 && (pos.has_color(t, 1 - turn) || pos.state.en_passant == Some(Square(t as u8))) {
        step_or_promotions(plain_move(Square(s as u8), Square(t as u8), 4), promotes_on(one))
    } else {
        Seq::<Move>::empty()
    }
}

/// The moves of the pawn on `s`: its pushes, then its capture towards the
/// h-file, then that towards the a-file.
pub open spec fn spec_pawn_moves(pos: Position, s: int) -> Seq<Move> {
    spec_pawn_pushes(pos, s) + spec_pawn_capture(pos, s, 1) + spec_pawn_capture(pos, s, -1)
}

/// Adds `base`, or its four promotions if `promotes`, to `moves`.
fn push_step_or_promotions(moves: &mut Vec<Move>, base: Move, promotes: bool)
    ensures
        final(moves)@ == old(moves)@ + step_or_promotions(base, promotes),
{
    if promotes {
        let mut queen = base;
        queen.set_promotion(Pieces::QUEEN);
        moves.push(queen);
        let mut knight = base;
        knight.set_promotion(Pieces::KNIGHT);
        moves.push(knight);
        let mut rook = base;
        rook.set_promotion(Pieces::ROOK);
        moves.push(rook);
        let mut bishop = base;
        bishop.set_promotion(Pieces::BISHOP);
        moves.push(bishop);
        proof {
            assert(moves@ =~= old(moves)@ + promotion_moves(base));
        }
    } else {
        moves.push(base);
        proof {
            assert(moves@ =~= old(moves)@ + seq![base]);
        }
    }
}

/// The moves of the pawn of the side to move on `square`.
pub fn get_pawn_moves(square: Square, board: &Board) -> (result: Vec<Move>)
    requires
        board.pieces_ok(),
        board.synced(),
        board.state.turn < 2,
        board.state.opponent == 1 - board.state.turn,
        1 <= rank_of(square.0 as int) <= 6,
        board.state.en_passant matches Some(sq) ==> sq.on_board(),
    ensures
        result@ == spec_pawn_moves(board@, square.0 as int),
{
    let mut moves: Vec<Move> = Vec::new();
    push_pawn_moves(&mut moves, square, board);
    proof {
        assert(moves@ =~= spec_pawn_moves(board@, square.0 as int));
    }
    moves
}

/// Appends the pushes of the pawn of the side to move on `square`.
fn push_pawn_pushes(moves: &mut Vec<Move>, square: Square, board: &Board)
    requires
        board.pieces_ok(),
        board.synced(),
        board.state.turn < 2,
        1 <= rank_of(square.0 as int) <= 6,
    ensures
        final(moves)@ == old(moves)@ + spec_pawn_pushes(board@, square.0 as int),
{
    let ghost s = square.0 as int;
    let ghost pos = board@;
    let ghost turn = pos.turn();
    let white = board.state.turn == Color::WHITE;
    proof {
        lemma_boards_of_position(board);
    }
    let new_square = if white {
        Square::new(square.as_u8() + 8)
    } else {
        Square::new(square.as_u8() - 8)
    };
    let new_rank = new_square.get_rank();
    let promotes = new_rank == 0 || new_rank == 7;
    assert(new_square.0 == pawn_forward(s, turn, 1));
    assert(promotes == promotes_on(new_square.0 as int));

    if !board.all_pieces.read_square(&new_square) {
        let new_move = Move::from_origin_and_destination(&new_square, &square, Pieces::PAWN);
        if promotes {
            push_step_or_promotions(moves, new_move, true);
        } else {
            moves.push(new_move);
            let base_rank: u8 = if white {
                1
            } else {
                6
            };
            if square.get_rank() == base_rank {
                let far_square = if white {
                    Square::new(square.as_u8() + 16)
                } else {
                    Square::new(square.as_u8() - 16)
                };
                if !board.all_pieces.read_square(&far_square) {
                    let mut far_move = Move::from_origin_and_destination(
                        &far_square,
                        &square,
                        Pieces::PAWN,
                    );
                    far_move.set_en_passant();
                    moves.push(far_move);
                }
            }
        }
    }
    assert(moves@ =~= old(moves)@ + spec_pawn_pushes(pos, s));
}

/// Appends the capture of the pawn of the side to move on `square`
/// towards the file `side` to the side.
fn push_pawn_capture(moves: &mut Vec<Move>, square: Square, board: &Board, side: i8)
    requires
        board.pieces_ok(),
        board.synced(),
        board.state.turn < 2,
        board.state.opponent == 1 - board.state.turn,
        1 <= rank_of(square.0 as int) <= 6,
        side == 1 || side == -1,
    ensures
        final(moves)@ == old(moves)@ + spec_pawn_capture(board@, square.0 as int, side as int),
{
    let ghost s = square.0 as int;
    let ghost pos = board@;
    let ghost turn = pos.turn();
    proof {
        lemma_boards_of_position(board);
    }
    let new_rank: u8 = if board.state.turn == Color::WHITE {
        square.get_rank() + 1
    } else {
        square.get_rank() - 1
    };
    let promotes = new_rank == 0 || new_rank == 7;
    let file: i8 = square.get_file() as i8 + side;
    assert(new_rank == rank_of(pawn_forward(s, turn, 1)));
    if 0 <= file && file <= 7 {
        let attacking_square = Square::new(new_rank * 8 + file as u8);
        proof {
            let t = attacking_square.0 as int;
            assert(board.colors[board.state.opponent as int].has(t) == pos.has_color(t, 1 - turn));
        }
        if board.colors[board.state.opponent].read_square(&attacking_square)
            || board.check_en_passant(&attacking_square) {
            let new_move = Move::from_origin_and_destination(&attacking_square, &square, Pieces::PAWN);
            push_step_or_promotions(moves, new_move, promotes);
        }
    }
    assert(moves@ =~= old(moves)@ + spec_pawn_capture(pos, s, side as int));
}

/// Appends the moves of the pawn of the side to move on `square`.
fn push_pawn_moves(moves: &mut Vec<Move>, square: Square, board: &Board)
    requires
        board.pieces_ok(),
        board.synced(),
        board.state.turn < 2,
        board.state.opponent == 1 - board.state.turn,
        1 <= rank_of(square.0 as int) <= 6,
        board.state.en_passant matches Some(sq) ==> sq.on_board(),
    ensures
        final(moves)@ == old(moves)@ + spec_pawn_moves(board@, square.0 as int),
{
    push_pawn_pushes(moves, square, board);
    push_pawn_capture(moves, square, board, 1);
    push_pawn_capture(moves, square, board, -1);
    proof {
        let s = square.0 as int;
        assert(moves@ =~= old(moves)@ + (spec_pawn_pushes(board@, s) + spec_pawn_capture(board@, s, 1)
            + spec_pawn_capture(board@, s, -1)));
    }
}

/// The moves of the piece of kind `kind` of the side to move on `s`.
pub open spec fn spec_piece_moves(pos: Position, kind: int, s: int) -> Seq<Move> {
    if kind == 4 {
        spec_pawn_moves(pos, s)
    } else if kind == 5 {
        spec_step_moves(pos, 5, s) + spec_castling_moves(pos, s)
    } else {
        spec_step_moves(pos, kind, s)
    }
}

/// The moves of the pieces of kind `kind` on the first `n` of `squares`.
pub open spec fn spec_moves_of_squares(pos: Position, kind: int, squares: Seq<Square>, n: int) -> Seq<
    Move,
>
    decreases n,
{
    if n <= 0 {
        Seq::<Move>::empty()
    } else {
        spec_moves_of_squares(pos, kind, squares, n - 1) + spec_piece_moves(
            pos,
            kind,
            squares[n - 1].0 as int,
        )
    }
}

/// The moves of all pieces of kind `kind` of the side to move, by square.
pub open spec fn spec_moves_of_kind(pos: Position, kind: int) -> Seq<Move> {
    let squares = spec_ones(pos.piece_board(kind, pos.turn()));
    spec_moves_of_squares(pos, kind, squares, squares.len() as int)
}

/// The moves of all pieces of the first `n` kinds of the side to move.
pub open spec fn spec_moves_upto(pos: Position, n: int) -> Seq<Move>
    decreases n,
{
    if n <= 0 {
        Seq::<Move>::empty()
    } else {
        spec_moves_upto(pos, n - 1) + spec_moves_of_kind(pos, n - 1)
    }
}

/// The moves of the side to move, before the test for check: by kind of
/// piece (queen, rook, bishop, knight, pawn, king), within a kind by the
/// square of the piece, and for one piece in the order of its generator.
pub open spec fn spec_all_moves(pos: Position) -> Seq<Move> {
    spec_moves_upto(pos, 6)
}

/// Appends the moves of the piece of kind `piece` of the side to move on
/// `square`.
fn push_piece_moves(
    out: &mut Vec<Move>,
    square: Square,
    piece: usize,
    board: &Board,
    move_gen_masks: &MoveGenMasks,
)
    requires
        square.on_board(),
        piece < 6,
        board.pieces_ok(),
        board.synced(),
        move_gen_masks.wf(),
        board.state.turn < 2,
        board.state.opponent == 1 - board.state.turn,
        board.state.en_passant matches Some(sq) ==> sq.on_board(),
        piece == 4 ==> 1 <= rank_of(square.0 as int) <= 6,
    ensures
        final(out)@ == old(out)@ + spec_piece_moves(board@, piece as int, square.0 as int),
{
    if piece == Pieces::PAWN {
        push_pawn_moves(out, square, board);
    } else if piece == Pieces::KNIGHT {
        push_moves_from_mask(out, &square, knight_mask(&square, move_gen_masks, board), piece);
    } else if piece == Pieces::KING {
        push_moves_from_mask(out, &square, king_mask(&square, move_gen_masks, board), piece);
        if board.state.castling.can_color_castle(board.state.turn) {
            let mut castling = get_castling_moves(&square, board, move_gen_masks);
            out.append(&mut castling);
        } else {
            proof {
                assert(spec_castling_moves(board@, square.0 as int) =~= Seq::<Move>::empty());
            }
        }
        proof {
            assert(out@ =~= old(out)@ + (spec_step_moves(board@, 5, square.0 as int)
                + spec_castling_moves(board@, square.0 as int)));
        }
    } else {
        push_moves_from_mask(out, &square, slider_mask(&square, board, move_gen_masks, piece), piece);
    }
}

/// The moves of the pieces on `squares` depend only on the squares
/// counted.
proof fn lemma_moves_of_squares_prefix(
    pos: Position,
    kind: int,
    a: Seq<Square>,
    b: Seq<Square>,
    n: int,
)
    requires
        0 <= n <= a.len(),
        n <= b.len(),
        forall|k: int| 0 <= k < n ==> a[k] == b[k],
    ensures
        spec_moves_of_squares(pos, kind, a, n) == spec_moves_of_squares(pos, kind, b, n),
    decreases n,
{
    if n > 0 {
        lemma_moves_of_squares_prefix(pos, kind, a, b, n - 1);
    }
}

/// The moves of the side to move, before the test for check.
pub fn get_all_moves(board: &Board, move_gen_masks: &MoveGenMasks) -> (result: Vec<Move>)
    requires
        board.wf(),
        move_gen_masks.wf(),
    ensures
        result@ == spec_all_moves(board@),
{
    let ghost pos = board@;
    let mut all_moves: Vec<Move> = Vec::with_capacity(64);
    let mut piece: usize = 0;
    proof {
        lemma_boards_of_position(board);
    }
    while piece < 6
        invariant
            board.wf(),
            move_gen_masks.wf(),
            pos == board@,
            piece <= 6,
            all_moves@ == spec_moves_upto(pos, piece as int),
        decreases 6 - piece,
    {
        let piece_board = board.pieces[board.state.turn][piece];
        let ghost x = piece_board.0;
        proof {
            lemma_boards_of_position(board);
            let pred = |s: int| pos.has(s, piece as int, pos.turn());
            assert forall|t: int| 0 <= t < 64 implies bit(piece_board.0, t) == pred(t) by {
                assert(board.pieces[board.state.turn as int][piece as int].has(t) == pos.has(
                    t,
                    piece as int,
                    pos.turn(),
                ));
            }
            lemma_board_of_unique(pred, piece_board.0);
        }
        let ghost before = all_moves@;
        let ghost mut low: int = 0;
        let mut rest = piece_board;
        proof {
            assert(all_moves@ =~= before + spec_moves_of_squares(
                pos,
                piece as int,
                ones_below(x, 0),
                0,
            ));
        }
        while rest.0 != 0
            invariant
                board.wf(),
                move_gen_masks.wf(),
                pos == board@,
                piece < 6,
                x == piece_board.0,
                0 <= low <= 64,
                forall|i: int| bit(rest.0, i) == (bit(x, i) && i >= low),
                forall|t: int| piece_board.has(t) == pos.has(t, piece as int, pos.turn()),
                all_moves@ == before + spec_moves_of_squares(
                    pos,
                    piece as int,
                    ones_below(x, low),
                    ones_below(x, low).len() as int,
                ),
            decreases popcount(rest.0),
        {
            let ghost previous = rest;
            assert(forall|i: int| #[trigger] previous.has(i) == (bit(x, i) && i >= low));
            let square = rest.pop_lsb();
            proof {
                let next = square.0 as int;
                assert(previous.has(next));
                assert(piece_board.has(next));
                assert(pos.has(next, piece as int, pos.turn()));
                assert(crate::position::is_pawn(pos.squares[next]) ==> 1 <= rank_of(next) <= 6);
            }
            let ghost so_far = all_moves@;
            push_piece_moves(&mut all_moves, square, piece, board, move_gen_masks);
            proof {
                let next = square.0 as int;
                assert forall|i: int| low <= i < next implies !bit(x, i) by {
                    if bit(x, i) {
                        assert(previous.has(i));
                    }
                }
                lemma_ones_below_next(x, low, next);
                assert forall|i: int| bit(rest.0, i) == (bit(x, i) && i >= next + 1) by {
                    assert(rest.has(i) == (previous.has(i) && i != next));
                    if previous.has(i) {
                        assert(next <= i);
                    }
                }
                let shorter = ones_below(x, low);
                let longer = ones_below(x, next + 1);
                lemma_moves_of_squares_prefix(pos, piece as int, longer, shorter, shorter.len() as int);
                assert(all_moves@ =~= before + spec_moves_of_squares(
                    pos,
                    piece as int,
                    longer,
                    longer.len() as int,
                ));
                low = next + 1;
            }
        }
        proof {
            assert forall|i: int| low <= i < 64 implies !bit(x, i) by {
                crate::types::bits::lemma_bit_zero(i);
            }
            lemma_ones_below_rest(x, low);
        }
        piece = piece + 1;
    }
    all_moves
}

/// Every move of `moves` can be made in `pos`.
pub open spec fn all_applicable(pos: Position, moves: Seq<Move>) -> bool {
    forall|i: int| 0 <= i < moves.len() ==> pos.applicable(#[trigger] moves[i])
}

/// A slider never attacks the square it stands on.
pub proof fn lemma_attack_elsewhere(occ: u64, s: int, t: int)
    requires
        rook_attacks(occ, s, t) || bishop_attacks(occ, s, t),
    ensures
        s != t,
        on_board(t),
{
    assert forall|d: int| 0 <= d < 8 && crate::moves::geometry::ray_attacks(occ, s, d, t) implies s
        != t && on_board(t) by {
        let n = choose|n: int|
            1 <= n < 8 && crate::moves::geometry::ray_on_board(s, d, n)
                && #[trigger] crate::moves::geometry::ray_square(s, d, n) == t
                && crate::moves::geometry::ray_clear(occ, s, d, n);
        crate::moves::geometry::lemma_ray_injective(s, d, n, 0);
        crate::moves::geometry::lemma_ray_prefix(s, d, n, n);
    }
}

/// The ordinary moves of a piece can be made.
pub proof fn lemma_step_moves_applicable(pos: Position, kind: int, s: int)
    requires
        pos.ready(),
        pos.has(s, kind, pos.turn()),
        kind != 4,
    ensures
        all_applicable(pos, spec_step_moves(pos, kind, s)),
{
    let board = target_board(pos, kind, s);
    let targets = spec_ones(board);
    crate::types::bitboard::lemma_spec_ones(board);
    let moves = spec_step_moves(pos, kind, s);
    assert forall|i: int| 0 <= i < moves.len() implies pos.applicable(#[trigger] moves[i]) by {
        let t = targets[i].0 as int;
        assert(bit(board, t));
        lemma_board_of(|u: int| reaches(pos, kind, s, u), t);
        assert(reaches(pos, kind, s, t));
        if kind == 0 || kind == 1 || kind == 2 {
            lemma_attack_elsewhere(pos.occupancy(), s, t);
        }
        let m = moves[i];
        assert(m == plain_move(Square(s as u8), targets[i], kind as usize));
        assert(pos.moving_kind(m) == kind);
    }
}

/// The moves of a pawn can be made.
pub proof fn lemma_pawn_moves_applicable(pos: Position, s: int)
    requires
        pos.ready(),
        pos.has(s, 4, pos.turn()),
    ensures
        all_applicable(pos, spec_pawn_moves(pos, s)),
{
    let turn = pos.turn();
    let moves = spec_pawn_moves(pos, s);
    let pushes = spec_pawn_pushes(pos, s);
    let right = spec_pawn_capture(pos, s, 1);
    let left = spec_pawn_capture(pos, s, -1);
    assert(crate::position::is_pawn(pos.squares[s]));
    assert(1 <= rank_of(s) <= 6);
    let one = pawn_forward(s, turn, 1);
    assert forall|i: int| 0 <= i < pushes.len() implies pos.applicable(#[trigger] pushes[i]) by {
        let m = pushes[i];
        assert(pos.moving_kind(m) == 4);
        lemma_not_en_passant_target(pos, s, one);
    }
    assert forall|i: int| 0 <= i < right.len() implies pos.applicable(#[trigger] right[i]) by {
        let m = right[i];
        assert(pos.moving_kind(m) == 4);
    }
    assert forall|i: int| 0 <= i < left.len() implies pos.applicable(#[trigger] left[i]) by {
        let m = left[i];
        assert(pos.moving_kind(m) == 4);
    }
    assert forall|i: int| 0 <= i < moves.len() implies pos.applicable(#[trigger] moves[i]) by {
        if i < pushes.len() {
            assert(moves[i] == pushes[i]);
        } else if i < pushes.len() + right.len() {
            assert(moves[i] == right[i - pushes.len()]);
        } else {
            assert(moves[i] == left[i - pushes.len() - right.len()]);
        }
    }
}

/// The square straight ahead of a pawn of the side to move is not the
/// en-passant target: the pawn that was passed stands where such a pawn
/// would have to come from.
pub proof fn lemma_not_en_passant_target(pos: Position, s: int, one: int)
    requires
        pos.wf(),
        pos.has(s, 4, pos.turn()),
        one == pawn_forward(s, pos.turn(), 1),
    ensures
        pos.state.en_passant matches Some(e) ==> e.0 != one && (rank_of(s) == (if pos.turn() == 0 {
            1int
        } else {
            6int
        }) ==> e.0 != pawn_forward(s, pos.turn(), 2)),
{
    assert(crate::position::is_pawn(pos.squares[s]));
}

/// The castling moves can be made.
pub proof fn lemma_castling_moves_applicable(pos: Position, king: int)
    requires
        pos.ready(),
    ensures
        all_applicable(pos, spec_castling_moves(pos, king)),
{
    let moves = spec_castling_moves(pos, king);
    let turn = pos.turn();
    assert forall|i: int| 0 <= i < moves.len() implies pos.applicable(#[trigger] moves[i]) by {
        let m = moves[i];
        assert(pos.moving_kind(m) == 5);
    }
}

/// The moves of a piece of the side to move can be made.
pub proof fn lemma_piece_moves_applicable(pos: Position, kind: int, s: int)
    requires
        pos.ready(),
        pos.has(s, kind, pos.turn()),
    ensures
        all_applicable(pos, spec_piece_moves(pos, kind, s)),
{
    if kind == 4 {
        lemma_pawn_moves_applicable(pos, s);
    } else if kind == 5 {
        lemma_step_moves_applicable(pos, 5, s);
        lemma_castling_moves_applicable(pos, s);
        let a = spec_step_moves(pos, 5, s);
        let b = spec_castling_moves(pos, s);
        assert forall|i: int| 0 <= i < (a + b).len() implies pos.applicable(#[trigger] (a + b)[i]) by {
            if i < a.len() {
                assert((a + b)[i] == a[i]);
            } else {
                assert((a + b)[i] == b[i - a.len()]);
            }
        }
    } else {
        lemma_step_moves_applicable(pos, kind, s);
    }
}

/// The moves of the pieces on the first `n` of `squares` can be made.
proof fn lemma_moves_of_squares_applicable(pos: Position, kind: int, squares: Seq<Square>, n: int)
    requires
        pos.ready(),
        0 <= n <= squares.len(),
        forall|k: int| 0 <= k < squares.len() ==> pos.has((#[trigger] squares[k]).0 as int, kind, pos.turn()),
    ensures
        all_applicable(pos, spec_moves_of_squares(pos, kind, squares, n)),
    decreases n,
{
    if n > 0 {
        lemma_moves_of_squares_applicable(pos, kind, squares, n - 1);
        assert(pos.has(squares[n - 1].0 as int, kind, pos.turn()));
        lemma_piece_moves_applicable(pos, kind, squares[n - 1].0 as int);
        let a = spec_moves_of_squares(pos, kind, squares, n - 1);
        let b = spec_piece_moves(pos, kind, squares[n - 1].0 as int);
        assert forall|i: int| 0 <= i < (a + b).len() implies pos.applicable(#[trigger] (a + b)[i]) by {
            if i < a.len() {
                assert((a + b)[i] == a[i]);
            } else {
                assert((a + b)[i] == b[i - a.len()]);
            }
        }
    }
}

/// The moves of the pieces of the first `n` kinds can be made.
proof fn lemma_moves_upto_applicable(pos: Position, n: int)
    requires
        pos.ready(),
        0 <= n <= 6,
    ensures
        all_applicable(pos, spec_moves_upto(pos, n)),
    decreases n,
{
    if n > 0 {
        lemma_moves_upto_applicable(pos, n - 1);
        let kind = n - 1;
        let board = pos.piece_board(kind, pos.turn());
        let squares = spec_ones(board);
        crate::types::bitboard::lemma_spec_ones(board);
        assert forall|k: int| 0 <= k < squares.len() implies pos.has(
            (#[trigger] squares[k]).0 as int,
            kind,
            pos.turn(),
        ) by {
            lemma_board_of(|s: int| pos.has(s, kind, pos.turn()), squares[k].0 as int);
        }
        lemma_moves_of_squares_applicable(pos, kind, squares, squares.len() as int);
        let a = spec_moves_upto(pos, n - 1);
        let b = spec_moves_of_kind(pos, kind);
        assert forall|i: int| 0 <= i < (a + b).len() implies pos.applicable(#[trigger] (a + b)[i]) by {
            if i < a.len() {
                assert((a + b)[i] == a[i]);
            } else {
                assert((a + b)[i] == b[i - a.len()]);
            }
        }
    }
}

/// Every move that the generator gives can be made.
pub proof fn lemma_all_moves_applicable(pos: Position)
    requires
        pos.ready(),
    ensures
        all_applicable(pos, spec_all_moves(pos)),
{
    lemma_moves_upto_applicable(pos, 6);
}

} // verus!
