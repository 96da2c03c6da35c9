//! The mathematical model of a position: what stands on each of the 64
//! squares, the state beside the pieces, the Zobrist key and the keys of the
//! positions played so far. The contracts of `Board` speak of this model.

use vstd::prelude::*;
use crate::moves::geometry::file_of;
use crate::moves::geometry::on_board;
use crate::moves::geometry::rank_of;
use crate::moves::moves_utils::Move;
use crate::moves::moves_utils::UnmakeMoveHelper;
use crate::types::bitboard::BitBoard;
use crate::types::bits::board_of;
use crate::types::bits::single;
use crate::types::piece::Piece;
use crate::types::square::Square;
use crate::types::state::flag;
use crate::types::state::Castling;
use crate::types::state::State;
use crate::utils::zobrist::spec_hash_everything;
use crate::utils::zobrist::ZobristHash;

verus! {

pub struct Position {
    /// What stands on each square, by square number.
    pub squares: Seq<Option<Piece>>,
    pub state: State,
    pub zobrist: ZobristHash,
    /// The keys of the positions played, the latest last.
    pub history: Seq<ZobristHash>,
}

/// The square of the pawn that an en-passant capture from `origin` to
/// `destination` removes: on the rank of the origin, on the file of the
/// destination.
pub open spec fn en_passant_victim(origin: int, destination: int) -> int {
    rank_of(origin) * 8 + file_of(destination)
}

/// The square that a double push from `origin` to `destination` by `turn`
/// passes over.
pub open spec fn passed_square(origin: int, destination: int, turn: int) -> int {
    (if turn == 0 {
        rank_of(origin) + 1
    } else {
        rank_of(origin) - 1
    }) * 8 + file_of(destination)
}

/// Where the rook stands before castling with the king going from `origin`
/// to `destination`: in the a-file corner when the king goes to the c-file,
/// else in the h-file corner.
pub open spec fn castling_rook_origin(origin: int, destination: int) -> int {
    rank_of(origin) * 8 + if file_of(destination) == 2 {
        0int
    } else {
        7int
    }
}

/// Where the rook stands after castling with the king going from `origin`
/// to `destination`: on the d-file when the king goes to the c-file, else on
/// the f-file.
pub open spec fn castling_rook_destination(origin: int, destination: int) -> int {
    rank_of(origin) * 8 + if file_of(destination) == 2 {
        3int
    } else {
        5int
    }
}

/// The castling rights with the given four flags.
pub open spec fn castling_of_flags(
    white_short: bool,
    white_long: bool,
    black_short: bool,
    black_long: bool,
) -> Castling {
    Castling(
        ((if white_short {
            1int
        } else {
            0int
        }) + (if white_long {
            2int
        } else {
            0int
        }) + (if black_short {
            4int
        } else {
            0int
        }) + (if black_long {
            8int
        } else {
            0int
        })) as u8,
    )
}

/// What stands on each square once the piece on `o` has gone to `d` as a
/// piece of kind `kind`: the origin is empty, the pawn that an en-passant
/// capture removes is gone, and on castling the rook has crossed the king.
pub open spec fn squares_moved(
    squares: Seq<Option<Piece>>,
    o: int,
    d: int,
    turn: usize,
    kind: usize,
    en_passant_capture: bool,
    castling: bool,
) -> Seq<Option<Piece>> {
    let lifted = squares.update(o, None);
    let taken = if en_passant_capture {
        lifted.update(en_passant_victim(o, d), None)
    } else {
        lifted
    };
    let placed = taken.update(d, Some(Piece { piece: kind, color: turn }));
    if castling {
        placed.update(castling_rook_origin(o, d), None).update(
            castling_rook_destination(o, d),
            Some(Piece { piece: 1, color: turn }),
        )
    } else {
        placed
    }
}

/// A pawn stands there.
pub open spec fn is_pawn(content: Option<Piece>) -> bool {
    content matches Some(p) && p.piece == 4
}

/// The castling rights `castling` without those whose king or rook does
/// not stand at home on `squares`.
pub open spec fn castling_kept(castling: Castling, squares: Seq<Option<Piece>>) -> Castling {
    castling_of_flags(
        flag(castling.0, 0) && home_pair(squares, 0, false),
        flag(castling.0, 1) && home_pair(squares, 0, true),
        flag(castling.0, 2) && home_pair(squares, 1, false),
        flag(castling.0, 3) && home_pair(squares, 1, true),
    )
}

/// The king of `color` stands on its home square and its rook of the long
/// side (`long`) or the short side on that rook's.
pub open spec fn home_pair(squares: Seq<Option<Piece>>, color: int, long: bool) -> bool {
    let rank = if color == 0 {
        0int
    } else {
        7int
    };
    let rook_file = if long {
        0int
    } else {
        7int
    };
    squares[rank * 8 + 4] == Some(Piece { piece: 5, color: color as usize }) && squares[rank * 8
        + rook_file] == Some(Piece { piece: 1, color: color as usize })
}

/// Each castling right held has its king and rook on their home squares.
pub open spec fn castling_consistent(squares: Seq<Option<Piece>>, castling: Castling) -> bool {
    &&& flag(castling.0, 0) ==> home_pair(squares, 0, false)
    &&& flag(castling.0, 1) ==> home_pair(squares, 0, true)
    &&& flag(castling.0, 2) ==> home_pair(squares, 1, false)
    &&& flag(castling.0, 3) ==> home_pair(squares, 1, true)
}

/// The en-passant target, if there is one, is the empty square that a pawn
/// of the side not to move has just passed: on the sixth rank with that pawn
/// below it when white is to move, on the third with that pawn above it when
/// black is.
pub open spec fn en_passant_consistent(squares: Seq<Option<Piece>>, state: State) -> bool {
    state.en_passant matches Some(e) ==> {
        let t = e.0 as int;
        if state.turn == 0 {
            rank_of(t) == 5 && squares[t].is_none() && squares[t - 8] == Some(
                Piece { piece: 4, color: 1 },
            )
        } else {
            rank_of(t) == 2 && squares[t].is_none() && squares[t + 8] == Some(
                Piece { piece: 4, color: 0 },
            )
        }
    }
}

impl Position {
    /// Sixty-four squares, each empty or with a piece of a real kind and
    /// colour; no pawn on the first or the eighth rank; a state whose fields
    /// are in range; an en-passant target that a pawn has just passed;
    /// castling rights only where king and rook stand on their home squares.
    pub open spec fn wf(&self) -> bool {
        &&& self.squares.len() == 64
        &&& forall|s: int| 0 <= s < 64 ==> ((#[trigger] self.squares[s]) matches Some(p) ==> p.wf())
        &&& forall|s: int| 0 <= s < 64 && is_pawn(#[trigger] self.squares[s]) ==> 1 <= rank_of(s) <= 6
        &&& self.state.wf()
        &&& en_passant_consistent(self.squares, self.state)
        &&& castling_consistent(self.squares, self.state.castling)
    }

    /// A piece of kind `piece` and colour `color` stands on `s`.
    pub open spec fn has(&self, s: int, piece: int, color: int) -> bool {
        0 <= s < 64 && self.squares[s] == Some(Piece { piece: piece as usize, color: color as usize })
    }

    /// A piece of colour `color` stands on `s`.
    pub open spec fn has_color(&self, s: int, color: int) -> bool {
        0 <= s < 64 && (self.squares[s] matches Some(p) && p.color == color)
    }

    /// Nothing stands on `s`.
    pub open spec fn is_empty(&self, s: int) -> bool {
        0 <= s < 64 && self.squares[s].is_none()
    }

    /// The occupied squares, as a board.
    pub open spec fn occupancy(&self) -> u64 {
        board_of(|s: int| 0 <= s < 64 && self.squares[s].is_some())
    }

    /// The squares with a piece of kind `piece` and colour `color`, as a
    /// board.
    pub open spec fn piece_board(&self, piece: int, color: int) -> u64 {
        board_of(|s: int| self.has(s, piece, color))
    }

    /// The number of kings of `color`.
    pub open spec fn king_count(&self, color: int) -> nat {
        crate::types::bits::popcount(self.piece_board(5, color))
    }

    /// The side to move.
    pub open spec fn turn(&self) -> int {
        self.state.turn as int
    }

    /// The kind of the piece that `m` moves.
    pub open spec fn moving_kind(&self, m: Move) -> int {
        match self.squares[m.origin.0 as int] {
            Some(p) => p.piece as int,
            None => 0,
        }
    }

    /// `m` takes the piece on its destination.
    pub open spec fn is_capture(&self, m: Move) -> bool {
        self.has_color(m.destination.0 as int, 1 - self.turn())
    }

    /// `m` is a pawn's capture of the pawn that just passed it.
    pub open spec fn is_en_passant_capture(&self, m: Move) -> bool {
        !self.is_capture(m) && self.state.en_passant == Some(m.destination) && self.moving_kind(m)
            == 4
    }

    /// `m` takes a piece: the one on its destination, or en passant the
    /// pawn that just passed.
    pub open spec fn takes(&self, m: Move) -> bool {
        self.is_capture(m) || self.is_en_passant_capture(m)
    }

    /// `m` can be made in this position: it moves a piece of the side to
    /// move to a square that holds none of its own, the counters have room,
    /// only a pawn promotes, and to queen, rook, bishop or knight, no pawn
    /// stays a pawn on the last rank, and what marks the move as special fits
    /// the board.
    pub open spec fn applicable(&self, m: Move) -> bool {
        let o = m.origin.0 as int;
        let d = m.destination.0 as int;
        let turn = self.turn();
        &&& self.wf()
        &&& on_board(o)
        &&& on_board(d)
        &&& o != d
        &&& self.has_color(o, turn)
        &&& !self.has_color(d, turn)
        &&& self.state.half_moves < u8::MAX
        &&& (turn == 1 ==> self.state.full_moves < u16::MAX)
        &&& (m.promotion_piece matches Some(pp) ==> pp < 4 && self.moving_kind(m) == 4)
        &&& (m.promotion_piece.is_none() && self.moving_kind(m) == 4 ==> 1 <= rank_of(d) <= 6)
        &&& (self.is_en_passant_capture(m) ==> self.has(en_passant_victim(o, d), 4, 1 - turn))
        &&& (m.is_double_push() ==> {
            &&& self.moving_kind(m) == 4
            &&& (turn == 0 ==> rank_of(o) == 1 && d == o + 16)
            &&& (turn == 1 ==> rank_of(o) == 6 && d == o - 16)
            &&& self.is_empty(d)
            &&& self.is_empty(passed_square(o, d, turn))
        })
        &&& (m.is_castling() ==> {
            &&& self.moving_kind(m) == 5
            &&& self.is_empty(d)
            &&& rank_of(o) == rank_of(d)
            &&& file_of(o) == 4
            &&& (file_of(d) == 2 || file_of(d) == 6)
            &&& self.has(castling_rook_origin(o, d), 1, turn)
            &&& self.is_empty(castling_rook_destination(o, d))
        })
    }

    /// What stands on each square once `m` is made.
    pub open spec fn squares_after(&self, m: Move) -> Seq<Option<Piece>> {
        squares_moved(
            self.squares,
            m.origin.0 as int,
            m.destination.0 as int,
            self.state.turn,
            match m.promotion_piece {
                Some(pp) => pp,
                None => self.moving_kind(m) as usize,
            },
            self.is_en_passant_capture(m),
            m.is_castling(),
        )
    }

    /// The castling rights once `m` is made: each right is lost whose king
    /// or rook no longer stands on its home square.
    pub open spec fn castling_after(&self, m: Move) -> Castling {
        castling_kept(self.state.castling, self.squares_after(m))
    }

    /// The state once `m` is made.
    pub open spec fn state_after(&self, m: Move) -> State {
        let o = m.origin.0 as int;
        let d = m.destination.0 as int;
        State {
            castling: self.castling_after(m),
            en_passant: if m.is_double_push() {
                Some(Square(passed_square(o, d, self.turn()) as u8))
            } else {
                None
            },
            half_moves: if self.moving_kind(m) == 4 || self.is_capture(m) {
                0
            } else {
                (self.state.half_moves + 1) as u8
            },
            full_moves: if self.turn() == 1 {
                (self.state.full_moves + 1) as u16
            } else {
                self.state.full_moves
            },
            turn: (1 - self.state.turn) as usize,
            opponent: self.state.turn,
        }
    }

    /// The position once `m` is made, `keys` being the Zobrist keys. Its
    /// key is the old one with the full key of the old position taken out
    /// and that of the new one put in, so that a key that was right stays
    /// right.
    pub open spec fn after_move(&self, m: Move, keys: Seq<u64>) -> Position {
        let squares = self.squares_after(m);
        let state = self.state_after(m);
        let zobrist = ZobristHash(
            self.zobrist.0 ^ spec_hash_everything(keys, self.squares, self.state)
                ^ spec_hash_everything(keys, squares, state),
        );
        Position { squares, state, zobrist, history: self.history.push(zobrist) }
    }

    /// The record that takes `m` back.
    pub open spec fn unmake_record(&self, m: Move) -> UnmakeMoveHelper {
        let o = m.origin.0 as int;
        let d = m.destination.0 as int;
        UnmakeMoveHelper {
            origin: m.origin,
            destination: m.destination,
            move_bb: BitBoard(single(o) ^ single(d)),
            piece: self.moving_kind(m) as usize,
            capture: if self.is_capture(m) {
                match self.squares[d] {
                    Some(q) => Some(q.piece),
                    None => None,
                }
            } else {
                None
            },
            prev_en_passant: self.state.en_passant,
            prev_hash: self.zobrist,
            prev_halfmove: self.state.half_moves,
            prev_castling: self.state.castling,
            was_promotion: m.is_promotion(),
            was_castling: m.is_castling(),
        }
    }

    /// `helper` can be taken back in this position: it is the side not to
    /// move whose piece went from origin to destination.
    pub open spec fn can_unmake(&self, helper: UnmakeMoveHelper) -> bool {
        let o = helper.origin.0 as int;
        let d = helper.destination.0 as int;
        let mover = 1 - self.turn();
        &&& self.wf()
        &&& on_board(o)
        &&& on_board(d)
        &&& o != d
        &&& helper.piece < 6
        &&& self.is_empty(o)
        &&& self.has_color(d, mover)
        &&& (helper.capture matches Some(c) ==> c < 6)
        &&& (helper.prev_en_passant matches Some(sq) ==> sq.on_board())
        &&& helper.prev_castling.wf()
        &&& (helper.was_en_passant() ==> helper.capture.is_none() && self.is_empty(
            en_passant_victim(o, d),
        ) && en_passant_victim(o, d) != o)
        &&& (helper.was_castling ==> {
            &&& rank_of(o) == rank_of(d)
            &&& file_of(o) == 4
            &&& (file_of(d) == 2 || file_of(d) == 6)
            &&& self.has(castling_rook_destination(o, d), 1, mover)
            &&& self.is_empty(castling_rook_origin(o, d))
        })
        &&& (mover == 1 ==> self.state.full_moves > 0)
        &&& self.history.len() > 0
    }

    /// The position with `helper` taken back.
    pub open spec fn before_move(&self, helper: UnmakeMoveHelper) -> Position {
        let o = helper.origin.0 as int;
        let d = helper.destination.0 as int;
        let mover = self.state.opponent;
        let victim = self.state.turn;
        let unrooked = if helper.was_castling {
            self.squares.update(castling_rook_destination(o, d), None).update(
                castling_rook_origin(o, d),
                Some(Piece { piece: 1, color: mover }),
            )
        } else {
            self.squares
        };
        let emptied = unrooked.update(
            d,
            match helper.capture {
                Some(c) => Some(Piece { piece: c, color: victim }),
                None => None,
            },
        );
        let restored = if helper.was_en_passant() {
            emptied.update(en_passant_victim(o, d), Some(Piece { piece: 4, color: victim }))
        } else {
            emptied
        };
        Position {
            squares: restored.update(o, Some(Piece { piece: helper.piece, color: mover })),
            state: State {
                castling: helper.prev_castling,
                en_passant: helper.prev_en_passant,
                half_moves: helper.prev_halfmove,
                full_moves: if mover == 1 {
                    (self.state.full_moves - 1) as u16
                } else {
                    self.state.full_moves
                },
                turn: mover,
                opponent: victim,
            },
            zobrist: helper.prev_hash,
            history: self.history.drop_last(),
        }
    }
}

/// How many of the lowest `n` squares hold a piece.
pub open spec fn count_pieces(squares: Seq<Option<Piece>>, n: int) -> nat
    decreases n,
{
    if n <= 0 {
        0
    } else {
        count_pieces(squares, n - 1) + if squares[n - 1].is_some() {
            1nat
        } else {
            0nat
        }
    }
}

/// No more pieces than squares.
pub proof fn lemma_count_pieces_bound(squares: Seq<Option<Piece>>, n: int)
    requires
        0 <= n,
    ensures
        count_pieces(squares, n) <= n,
    decreases n,
{
    if n > 0 {
        lemma_count_pieces_bound(squares, n - 1);
    }
}

/// Changing what stands on one square changes the count by what that
/// square adds.
pub proof fn lemma_count_pieces_update(squares: Seq<Option<Piece>>, s: int, content: Option<Piece>, n: int)
    requires
        0 <= s < squares.len(),
        0 <= n <= squares.len(),
    ensures
        count_pieces(squares.update(s, content), n) + (if s < n && squares[s].is_some() {
            1int
        } else {
            0int
        }) == count_pieces(squares, n) + (if s < n && content.is_some() {
            1int
        } else {
            0int
        }),
    decreases n,
{
    if n > 0 {
        lemma_count_pieces_update(squares, s, content, n - 1);
    }
}

/// How many entries of `keys` equal `key`.
pub open spec fn count_matches(keys: Seq<ZobristHash>, key: ZobristHash) -> nat
    decreases keys.len(),
{
    if keys.len() == 0 {
        0
    } else {
        count_matches(keys.drop_last(), key) + if keys.last() == key {
            1nat
        } else {
            0nat
        }
    }
}

impl Position {
    /// The position is well formed and its counters have room for one
    /// more move.
    pub open spec fn ready(&self) -> bool {
        &&& self.wf()
        &&& self.state.half_moves < u8::MAX
        &&& (self.state.turn == 1 ==> self.state.full_moves < u16::MAX)
    }

    /// The number of pieces on the board.
    pub open spec fn piece_count(&self) -> nat {
        count_pieces(self.squares, 64)
    }

    /// The counters have room for `plies` more moves.
    pub open spec fn has_room(&self, plies: int) -> bool {
        self.state.half_moves + plies <= u8::MAX && self.state.full_moves + plies <= u16::MAX
    }

    /// The side `color` has a king.
    pub open spec fn has_king(&self, color: int) -> bool {
        exists|s: int| #[trigger] self.has(s, 5, color)
    }

    /// The pieces and the state once `m` is made, with key and history
    /// left as they are.
    pub open spec fn moved(&self, m: Move) -> Position {
        Position {
            squares: self.squares_after(m),
            state: self.state_after(m),
            zobrist: self.zobrist,
            history: self.history,
        }
    }

    /// How far back a repetition can lie: as many positions as half moves
    /// were made since the last capture or pawn move, and no more than were
    /// played.
    pub open spec fn repetition_window(&self) -> int {
        if self.state.half_moves as int <= self.history.len() {
            self.state.half_moves as int
        } else {
            self.history.len() as int
        }
    }

    /// How often the key of this position occurs among the positions that
    /// a repetition can lie in.
    pub open spec fn repetitions(&self) -> nat {
        count_matches(
            self.history.subrange(
                self.history.len() - self.repetition_window(),
                self.history.len() as int,
            ),
            self.zobrist,
        )
    }

    /// The position has occurred three times: a draw can be claimed.
    pub open spec fn is_repetition_draw(&self) -> bool {
        self.repetitions() >= 3
    }
}

impl UnmakeMoveHelper {
    /// The move taken back was a pawn's capture of the pawn that had just
    /// passed it.
    pub open spec fn was_en_passant(&self) -> bool {
        self.piece == 4 && self.prev_en_passant == Some(self.destination)
    }
}

/// A move that takes a piece leaves one piece fewer on the board.
pub proof fn lemma_capture_takes_a_piece(pos: Position, m: Move, keys: Seq<u64>)
    requires
        pos.applicable(m),
        pos.takes(m),
    ensures
        pos.after_move(m, keys).piece_count() + 1 == pos.piece_count(),
{
    let o = m.origin.0 as int;
    let d = m.destination.0 as int;
    let kind: usize = match m.promotion_piece {
        Some(pp) => pp,
        None => pos.moving_kind(m) as usize,
    };
    let mover = Some(Piece { piece: kind, color: pos.state.turn });
    let lifted = pos.squares.update(o, None);
    lemma_count_pieces_update(pos.squares, o, None, 64);
    if pos.is_capture(m) {
        let placed = lifted.update(d, mover);
        lemma_count_pieces_update(lifted, d, mover, 64);
        assert(pos.squares_after(m) == placed);
    } else {
        let victim = en_passant_victim(o, d);
        let taken = lifted.update(victim, None);
        let placed = taken.update(d, mover);
        lemma_count_pieces_update(lifted, victim, None, 64);
        lemma_count_pieces_update(taken, d, mover, 64);
        assert(pos.squares[d].is_none());
        assert(pos.squares_after(m) == placed);
    }
}

} // verus!
