//! The position as the engine holds it: one board of squares for each
//! colour and for each kind of piece of each colour, the state beside the
//! pieces, the Zobrist key and the keys of the positions played.

use vstd::prelude::*;
use crate::moves::legality::in_check;
use crate::moves::legality::kept;
use crate::moves::legality::king_square;
use crate::moves::legality::leaves_king_safe;
use crate::moves::legality::lemma_attacked_by_squares;
use crate::moves::legality::lemma_king_square;
use crate::moves::legality::lemma_legal_moves_sound;
use crate::moves::legality::lemma_mover_keeps_king;
use crate::moves::legality::spec_capture_moves;
use crate::moves::legality::spec_legal_moves;
use crate::moves::legality::sound;
use crate::moves::legality::one_king;
use crate::moves::legality::lemma_one_king_count;
use crate::moves::legality::names_its_piece;
use crate::moves::legality::all_moves_satisfy;
use crate::moves::legality::lemma_moves_name_their_piece;
use crate::moves::move_mask_gen::MoveGenMasks;
use crate::moves::moves_calculation::all_applicable;
use crate::moves::moves_calculation::get_all_moves;
use crate::moves::moves_calculation::is_square_in_check;
use crate::moves::moves_calculation::lemma_all_moves_applicable;
use crate::moves::moves_calculation::lemma_boards_of_position;
use crate::moves::moves_calculation::spec_all_moves;
use crate::moves::moves_calculation::square_attacked_by;
use crate::moves::moves_utils::Move;
use crate::moves::moves_utils::UnmakeMoveHelper;
use crate::position::Position;
use crate::types::bitboard::BitBoard;
use crate::types::bits::bit;
use crate::types::piece::Color;
use crate::types::piece::Piece;
use crate::types::piece::Pieces;
use crate::types::square::Square;
use crate::types::state::Castling;
use crate::types::state::State;
use crate::utils::zobrist::ZobristHash;
use crate::utils::zobrist::ZobristHasher;
use crate::utils::zobrist::spec_hash_everything;
use crate::utils::zobrist::spec_hash_board;
use crate::utils::zobrist::spec_hash_castling;
use crate::utils::zobrist::spec_hash_en_passant;
use crate::utils::zobrist::spec_hash_turn;
use crate::utils::zobrist::key_if;
use crate::utils::zobrist::lemma_hash_squares_update;
use crate::types::bits::lemma_xor_algebra;
use crate::types::bits::lemma_xor_delta;
use crate::types::bits::single;
use crate::types::state::flag;
use crate::types::state::lemma_flag_ext;
use crate::types::state::lemma_flags_of_value;
use crate::position::castling_of_flags;
use crate::position::home_pair;
use crate::position::en_passant_victim;
use crate::position::castling_rook_origin;
use crate::position::castling_rook_destination;
use crate::moves::geometry::rank_of;
use crate::moves::geometry::file_of;

verus! {

#[derive(Clone)]
pub struct Board {
    pub colors: [BitBoard; 2],
    pub pieces: [[BitBoard; 6]; 2],
    pub all_pieces: BitBoard,
    pub state: State,
    pub zobrist: ZobristHash,
    pub position_history: Vec<ZobristHash>,
}

impl View for Board {
    type V = Position;

    open spec fn view(&self) -> Position {
        Position {
            squares: squares_of(self.pieces),
            state: self.state,
            zobrist: self.zobrist,
            history: self.position_history@,
        }
    }
}

/// The board of kind `p` and colour `c` among `pieces` holds square `s`.
pub open spec fn holds(pieces: [[BitBoard; 6]; 2], c: int, p: int, s: int) -> bool {
    pieces[c][p].has(s)
}

/// The first kind, in the order of the boards, whose board of colour `c`
/// holds `s`.
pub open spec fn kind_at(pieces: [[BitBoard; 6]; 2], c: int, s: int) -> Option<Piece> {
    if holds(pieces, c, 0, s) {
        Some(Piece { piece: 0, color: c as usize })
    } else if holds(pieces, c, 1, s) {
        Some(Piece { piece: 1, color: c as usize })
    } else if holds(pieces, c, 2, s) {
        Some(Piece { piece: 2, color: c as usize })
    } else if holds(pieces, c, 3, s) {
        Some(Piece { piece: 3, color: c as usize })
    } else if holds(pieces, c, 4, s) {
        Some(Piece { piece: 4, color: c as usize })
    } else if holds(pieces, c, 5, s) {
        Some(Piece { piece: 5, color: c as usize })
    } else {
        None
    }
}

/// What stands on `s`: the first piece, white before black, whose board
/// holds it.
pub open spec fn piece_at(pieces: [[BitBoard; 6]; 2], s: int) -> Option<Piece> {
    match kind_at(pieces, 0, s) {
        Some(p) => Some(p),
        None => kind_at(pieces, 1, s),
    }
}

/// What stands on each of the 64 squares.
pub open spec fn squares_of(pieces: [[BitBoard; 6]; 2]) -> Seq<Option<Piece>> {
    Seq::new(64, |s: int| piece_at(pieces, s))
}

/// The boards agree with each other: no square is on two boards of pieces,
/// and the board of each colour holds the squares of its pieces.
pub open spec fn boards_ok(colors: [BitBoard; 2], pieces: [[BitBoard; 6]; 2]) -> bool {
    &&& forall|c: int, p: int, s: int|
        0 <= c < 2 && 0 <= p < 6 && 0 <= s < 64 ==> (#[trigger] holds(pieces, c, p, s) == (piece_at(
            pieces,
            s,
        ) == Some(Piece { piece: p as usize, color: c as usize })))
    &&& forall|c: int, s: int|
        0 <= c < 2 && 0 <= s < 64 ==> (#[trigger] colors[c].has(s) == (piece_at(pieces, s) matches Some(
            q,
        ) && q.color == c))
}

impl Board {
    /// The boards agree with each other: no square is on two boards of
    /// pieces, and the board of each colour holds the squares of its pieces.
    pub open spec fn pieces_ok(&self) -> bool {
        boards_ok(self.colors, self.pieces)
    }

    /// The board of all pieces is the union of the boards of the colours.
    pub open spec fn synced(&self) -> bool {
        self.all_pieces.0 == self.colors[0].0 | self.colors[1].0
    }

    /// The boards agree with each other and the position is well formed.
    pub open spec fn wf(&self) -> bool {
        &&& self.pieces_ok()
        &&& self.synced()
        &&& self@.wf()
    }

    /// Takes the piece of kind `piece` and colour `color` off `square`.
    pub fn clear_piece(&mut self, square: &Square, piece: usize, color: usize)
        requires
            square.on_board(),
            piece < 6,
            color < 2,
        ensures
            final(self).colors[color as int].0 == old(self).colors[color as int].0 & !crate::types::bits::single(
                square.0 as int,
            ),
            final(self).pieces[color as int][piece as int].0 == old(
                self,
            ).pieces[color as int][piece as int].0 & !crate::types::bits::single(square.0 as int),
            forall|c: int| 0 <= c < 2 && c != color ==> final(self).colors[c] == old(self).colors[c],
            forall|c: int, p: int|
                0 <= c < 2 && 0 <= p < 6 && (c != color || p != piece) ==> final(self).pieces[c][p]
                    == old(self).pieces[c][p],
            final(self).all_pieces == old(self).all_pieces,
            final(self).state == old(self).state,
            final(self).zobrist == old(self).zobrist,
            final(self).position_history == old(self).position_history,
            old(self).pieces_ok() && old(self)@.has(square.0 as int, piece as int, color as int)
                ==> final(self).pieces_ok() && final(self)@.squares == old(self)@.squares.update(
                square.0 as int,
                None,
            ),
    {
        self.colors[color].set_zero(square);
        self.pieces[color][piece].set_zero(square);
        proof {
            if old(self).pieces_ok() && old(self)@.has(square.0 as int, piece as int, color as int) {
                let sq = square.0 as int;
                assert forall|c: int, p: int, s: int| 0 <= c < 2 && 0 <= p < 6 && 0 <= s < 64 implies (
                #[trigger] holds(self.pieces, c, p, s) == (holds(old(self).pieces, c, p, s) && !(s == sq))) by {
                    assert(holds(old(self).pieces, c, p, s) == (piece_at(old(self).pieces, s) == Some(
                        Piece { piece: p as usize, color: c as usize },
                    )));
                }
                assert forall|s: int| 0 <= s < 64 implies piece_at(self.pieces, s) == (if s == sq {
                    None
                } else {
                    piece_at(old(self).pieces, s)
                }) by {
                    assert(forall|c: int, p: int|
                        0 <= c < 2 && 0 <= p < 6 ==> holds(self.pieces, c, p, s) == (holds(old(self).pieces, c, p, s)
                            && !(s == sq)));
                }
                assert(self@.squares =~= old(self)@.squares.update(sq, None));
                assert forall|c: int, s: int| 0 <= c < 2 && 0 <= s < 64 implies (
                #[trigger] self.colors[c].has(s) == (piece_at(self.pieces, s) matches Some(q) && q.color
                    == c)) by {
                    assert(old(self).colors[c].has(s) == (piece_at(old(self).pieces, s) matches Some(q)
                        && q.color == c));
                }
            }
        }
    }

    /// Puts a piece of kind `piece` and colour `color` on `square`.
    pub fn place_piece(&mut self, square: &Square, piece: usize, color: usize)
        requires
            square.on_board(),
            piece < 6,
            color < 2,
        ensures
            final(self).colors[color as int].0 == old(self).colors[color as int].0 | crate::types::bits::single(
                square.0 as int,
            ),
            final(self).pieces[color as int][piece as int].0 == old(
                self,
            ).pieces[color as int][piece as int].0 | crate::types::bits::single(square.0 as int),
            forall|c: int| 0 <= c < 2 && c != color ==> final(self).colors[c] == old(self).colors[c],
            forall|c: int, p: int|
                0 <= c < 2 && 0 <= p < 6 && (c != color || p != piece) ==> final(self).pieces[c][p]
                    == old(self).pieces[c][p],
            final(self).all_pieces == old(self).all_pieces,
            final(self).state == old(self).state,
            final(self).zobrist == old(self).zobrist,
            final(self).position_history == old(self).position_history,
            old(self).pieces_ok() && old(self)@.is_empty(square.0 as int) ==> final(self).pieces_ok()
                && final(self)@.squares == old(self)@.squares.update(
                square.0 as int,
                Some(Piece { piece, color }),
            ),
    {
        self.colors[color].set_one(square);
        self.pieces[color][piece].set_one(square);
        proof {
            if old(self).pieces_ok() && old(self)@.is_empty(square.0 as int) {
                let sq = square.0 as int;
                assert forall|c: int, p: int, s: int| 0 <= c < 2 && 0 <= p < 6 && 0 <= s < 64 implies (
                #[trigger] holds(self.pieces, c, p, s) == (holds(old(self).pieces, c, p, s) || (s == sq && c == color
                    && p == piece))) by {
                    assert(holds(old(self).pieces, c, p, s) == (piece_at(old(self).pieces, s) == Some(
                        Piece { piece: p as usize, color: c as usize },
                    )));
                }
                assert forall|s: int| 0 <= s < 64 implies piece_at(self.pieces, s) == (if s == sq {
                    Some(Piece { piece, color })
                } else {
                    piece_at(old(self).pieces, s)
                }) by {
                    assert(forall|c: int, p: int|
                        0 <= c < 2 && 0 <= p < 6 ==> holds(self.pieces, c, p, s) == (holds(old(self).pieces, c, p, s)
                            || (s == sq && c == color && p == piece)));
                    assert(forall|c: int, p: int|
                        0 <= c < 2 && 0 <= p < 6 ==> holds(old(self).pieces, c, p, s) == (piece_at(old(self).pieces, s) == Some(Piece { piece: p as usize, color: c as usize })));
                }
                assert(self@.squares =~= old(self)@.squares.update(sq, Some(Piece { piece, color })));
                assert forall|c: int, s: int| 0 <= c < 2 && 0 <= s < 64 implies (
                #[trigger] self.colors[c].has(s) == (piece_at(self.pieces, s) matches Some(q) && q.color
                    == c)) by {
                    assert(old(self).colors[c].has(s) == (piece_at(old(self).pieces, s) matches Some(q)
                        && q.color == c));
                }
                assert forall|c: int, p: int, s: int| 0 <= c < 2 && 0 <= p < 6 && 0 <= s < 64 implies (
                #[trigger] holds(self.pieces, c, p, s) == (piece_at(self.pieces, s) == Some(
                    Piece { piece: p as usize, color: c as usize },
                ))) by {
                    assert(holds(old(self).pieces, c, p, s) == (piece_at(old(self).pieces, s) == Some(
                        Piece { piece: p as usize, color: c as usize },
                    )));
                }
            }
        }
    }

    /// Moves the piece of kind `piece` and colour `color` from `origin` to
    /// `destination`.
    pub fn move_piece(&mut self, origin: &Square, destination: &Square, piece: usize, color: usize)
        requires
            origin.on_board(),
            destination.on_board(),
            piece < 6,
            color < 2,
        ensures
            forall|c: int| 0 <= c < 2 && c != color ==> final(self).colors[c] == old(self).colors[c],
            forall|c: int, p: int|
                0 <= c < 2 && 0 <= p < 6 && (c != color || p != piece) ==> final(self).pieces[c][p]
                    == old(self).pieces[c][p],
            forall|s: int|
                final(self).pieces[color as int][piece as int].has(s) == ((old(
                    self,
                ).pieces[color as int][piece as int].has(s) || s == destination.0) && s != origin.0),
            forall|s: int|
                final(self).colors[color as int].has(s) == ((old(self).colors[color as int].has(s)
                    || s == destination.0) && s != origin.0),
            final(self).all_pieces == old(self).all_pieces,
            final(self).state == old(self).state,
            final(self).zobrist == old(self).zobrist,
            final(self).position_history == old(self).position_history,
            old(self).pieces_ok() && old(self)@.has(origin.0 as int, piece as int, color as int) && old(
                self,
            )@.is_empty(destination.0 as int) ==> final(self).pieces_ok() && final(self)@.squares
                == old(self)@.squares.update(origin.0 as int, None).update(
                destination.0 as int,
                Some(Piece { piece, color }),
            ),
    {
        let ghost start = self@.squares;
        self.place_piece(destination, piece, color);
        let ghost mid = self@.squares;
        let ghost mid_board = *self;
        self.clear_piece(origin, piece, color);
        proof {
            let o = origin.0 as int;
            let d = destination.0 as int;
            let c = color as int;
            let p = piece as int;
            assert forall|s: int| #[trigger]
                self.pieces[c][p].has(s) == ((old(self).pieces[c][p].has(s) || s == d) && s != o) by {
                crate::types::bits::lemma_bit_or(old(self).pieces[c][p].0, crate::types::bits::single(d), s);
                crate::types::bits::lemma_bit_single(d, s);
                crate::types::bits::lemma_bit_and(mid_board.pieces[c][p].0, !crate::types::bits::single(o), s);
                crate::types::bits::lemma_bit_not(crate::types::bits::single(o), s);
                crate::types::bits::lemma_bit_single(o, s);
            }
            assert forall|s: int| #[trigger]
                self.colors[c].has(s) == ((old(self).colors[c].has(s) || s == d) && s != o) by {
                crate::types::bits::lemma_bit_or(old(self).colors[c].0, crate::types::bits::single(d), s);
                crate::types::bits::lemma_bit_single(d, s);
                crate::types::bits::lemma_bit_and(mid_board.colors[c].0, !crate::types::bits::single(o), s);
                crate::types::bits::lemma_bit_not(crate::types::bits::single(o), s);
                crate::types::bits::lemma_bit_single(o, s);
            }
            if old(self).pieces_ok() && old(self)@.has(origin.0 as int, piece as int, color as int)
                && old(self)@.is_empty(destination.0 as int) {
                assert(mid == start.update(destination.0 as int, Some(Piece { piece, color })));
                assert(self@.squares =~= start.update(origin.0 as int, None).update(
                    destination.0 as int,
                    Some(Piece { piece, color }),
                ));
            }
        }
    }

    /// Brings the board of all pieces up to date with the boards of the
    /// colours.
    pub fn sync_all_pieces(&mut self)
        ensures
            final(self).synced(),
            final(self).colors == old(self).colors,
            final(self).pieces == old(self).pieces,
            final(self).state == old(self).state,
            final(self).zobrist == old(self).zobrist,
            final(self).position_history == old(self).position_history,
    {
        self.all_pieces = BitBoard(self.colors[0].0 | self.colors[1].0);
    }

    /// Whether `square` is the en-passant target.
    pub fn check_en_passant(&self, square: &Square) -> (r: bool)
        ensures
            r == (self.state.en_passant == Some(*square)),
    {
        match self.state.en_passant {
            Some(x) => x.0 == square.0,
            None => false,
        }
    }

    /// A board with no piece on it, white to move, before any move.
    pub fn empty() -> (b: Self)
        ensures
            b.pieces_ok(),
            b.synced(),
            forall|s: int| 0 <= s < 64 ==> b@.squares[s].is_none(),
            b.all_pieces.0 == 0,
            b.state.castling.0 == 0b1111,
            b.state.en_passant.is_none(),
            b.state.half_moves == 0,
            b.state.full_moves == 0,
            b.state.turn == 0,
            b.state.opponent == 1,
            b.zobrist.0 == 0,
            b.position_history@.len() == 0,
    {
        let b = Board {
            colors: [BitBoard::zeros(), BitBoard::zeros()],
            pieces: [
                [
                    BitBoard::zeros(),
                    BitBoard::zeros(),
                    BitBoard::zeros(),
                    BitBoard::zeros(),
                    BitBoard::zeros(),
                    BitBoard::zeros(),
                ],
                [
                    BitBoard::zeros(),
                    BitBoard::zeros(),
                    BitBoard::zeros(),
                    BitBoard::zeros(),
                    BitBoard::zeros(),
                    BitBoard::zeros(),
                ],
            ],
            all_pieces: BitBoard::zeros(),
            state: State::default(),
            zobrist: ZobristHash::zero(),
            position_history: Vec::with_capacity(50),
        };
        proof {
            assert forall|c: int, p: int, s: int| 0 <= c < 2 && 0 <= p < 6 implies !holds(b.pieces, c, p, s) by {
                crate::types::bits::lemma_bit_zero(s);
            }
            assert forall|c: int, s: int| 0 <= c < 2 implies !(#[trigger] b.colors[c].has(s)) by {
                crate::types::bits::lemma_bit_zero(s);
            }
            assert(0u64 | 0u64 == 0u64) by (bit_vector);
        }
        b
    }

    /// What stands on `square`.
    pub fn get_piece_on_square(&self, square: &Square) -> (r: Option<Piece>)
        requires
            self.pieces_ok(),
            square.on_board(),
        ensures
            r == self@.squares[square.0 as int],
            r matches Some(p) ==> p.wf(),
    {
        let ghost sq = square.0 as int;
        let color: usize = if self.colors[0].read_square(square) {
            0
        } else if self.colors[1].read_square(square) {
            1
        } else {
            return None;
        };
        let mut i: usize = 0;
        while i < 6
            invariant
                self.pieces_ok(),
                sq == square.0,
                0 <= sq < 64,
                color < 2,
                i <= 6,
                piece_at(self.pieces, sq) matches Some(q) && q.color == color,
                forall|p: int| 0 <= p < i ==> !holds(self.pieces, color as int, p, sq),
            decreases 6 - i,
        {
            if self.pieces[color][i].read_square(square) {
                assert(holds(self.pieces, color as int, i as int, sq));
                return Some(Piece::new(i, color));
            }
            i = i + 1;
        }
        proof {
            let q = piece_at(self.pieces, sq).unwrap();
            assert(holds(self.pieces, color as int, q.piece as int, sq));
        }
        None
    }

    /// Whether the position has occurred three times among the positions
    /// played since the last capture or pawn move.
    pub fn check_repeat_draw(&self) -> (r: bool)
        ensures
            r == self@.is_repetition_draw(),
    {
        let pos_history_len = self.position_history.len();
        let half_moves = self.state.half_moves as usize;
        let window = if half_moves <= pos_history_len {
            half_moves
        } else {
            pos_history_len
        };
        let start = pos_history_len - window;
        let mut i: usize = start;
        let mut count: usize = 0;
        let ghost history = self.position_history@;
        proof {
            assert(history.subrange(start as int, start as int) =~= Seq::<ZobristHash>::empty());
        }
        while i < pos_history_len
            invariant
                history == self.position_history@,
                pos_history_len == history.len(),
                start <= i <= pos_history_len,
                count <= i - start,
                count == crate::position::count_matches(
                    history.subrange(start as int, i as int),
                    self.zobrist,
                ),
            decreases pos_history_len - i,
        {
            proof {
                assert(history.subrange(start as int, i + 1).drop_last() =~= history.subrange(
                    start as int,
                    i as int,
                ));
            }
            if self.position_history[i].0 == self.zobrist.0 {
                count = count + 1;
            }
            i = i + 1;
        }
        count >= 3
    }

    /// How far the key is from the full key of the position: nothing when
    /// the key is right. Every step of making a move keeps it.
    pub open spec fn offset(&self, keys: Seq<u64>) -> u64 {
        self.zobrist.0 ^ spec_hash_everything(keys, self@.squares, self.state)
    }

    /// The key is the full key of the position.
    pub open spec fn hash_ok(&self, hasher: &ZobristHasher) -> bool {
        self.zobrist.0 == spec_hash_everything(hasher.keys(), self@.squares, self.state)
    }

    /// Takes a piece off the board and its key out of the position's key.
    fn hashed_lift(&mut self, square: &Square, piece: usize, color: usize, hasher: &ZobristHasher)
        requires
            old(self).pieces_ok(),
            square.on_board(),
            piece < 6,
            color < 2,
            old(self)@.has(square.0 as int, piece as int, color as int),
            old(self).state.en_passant.is_none(),
        ensures
            final(self).pieces_ok(),
            final(self)@.squares == old(self)@.squares.update(square.0 as int, None),
            final(self).state == old(self).state,
            final(self).position_history == old(self).position_history,
            final(self).offset(hasher.keys()) == old(self).offset(hasher.keys()),
    {
        let ghost keys = hasher.keys();
        let ghost sq = square.0 as int;
        self.clear_piece(square, piece, color);
        let key = hasher.hash_piece_at_square(&piece, &color, square);
        self.zobrist = ZobristHash(self.zobrist.0 ^ key.0);
        proof {
            let s = spec_hash_board(keys, old(self)@.squares);
            let c = spec_hash_castling(keys, self.state.castling);
            let t = spec_hash_turn(keys, self.state.turn as int);
            lemma_hash_squares_update(keys, old(self)@.squares, sq, None, 64);
            lemma_xor_algebra(s ^ key.0, 0, 0, 0);
            lemma_xor_delta(s, c, 0, t, key.0, old(self).zobrist.0);
        }
    }

    /// Puts a piece on the board and its key into the position's key.
    fn hashed_place(&mut self, square: &Square, piece: usize, color: usize, hasher: &ZobristHasher)
        requires
            old(self).pieces_ok(),
            square.on_board(),
            piece < 6,
            color < 2,
            old(self)@.is_empty(square.0 as int),
            old(self).state.en_passant.is_none(),
        ensures
            final(self).pieces_ok(),
            final(self)@.squares == old(self)@.squares.update(
                square.0 as int,
                Some(Piece { piece, color }),
            ),
            final(self).state == old(self).state,
            final(self).position_history == old(self).position_history,
            final(self).offset(hasher.keys()) == old(self).offset(hasher.keys()),
    {
        let ghost keys = hasher.keys();
        let ghost sq = square.0 as int;
        self.place_piece(square, piece, color);
        let key = hasher.hash_piece_at_square(&piece, &color, square);
        self.zobrist = ZobristHash(self.zobrist.0 ^ key.0);
        proof {
            let s = spec_hash_board(keys, old(self)@.squares);
            let c = spec_hash_castling(keys, self.state.castling);
            let t = spec_hash_turn(keys, self.state.turn as int);
            lemma_hash_squares_update(keys, old(self)@.squares, sq, Some(Piece { piece, color }), 64);
            lemma_xor_algebra(s, 0, 0, 0);
            lemma_xor_delta(s, c, 0, t, key.0, old(self).zobrist.0);
        }
    }

    /// Forgets the en-passant target and takes its key out of the
    /// position's key.
    fn hashed_clear_en_passant(&mut self, hasher: &ZobristHasher)
        requires
            old(self).pieces_ok(),
            old(self).state.turn < 2,
            old(self).state.en_passant matches Some(sq) ==> sq.on_board(),
        ensures
            final(self).pieces_ok(),
            final(self)@.squares == old(self)@.squares,
            final(self).state == (State { en_passant: None, ..old(self).state }),
            final(self).position_history == old(self).position_history,
            final(self).colors == old(self).colors,
            final(self).pieces == old(self).pieces,
            final(self).offset(hasher.keys()) == old(self).offset(hasher.keys()),
    {
        let ghost keys = hasher.keys();
        let key = hasher.hash_en_passant(self, self.state.turn);
        self.zobrist = ZobristHash(self.zobrist.0 ^ key.0);
        self.state.en_passant = None;
        proof {
            let s = spec_hash_board(keys, self@.squares);
            let c = spec_hash_castling(keys, self.state.castling);
            let t = spec_hash_turn(keys, self.state.turn as int);
            assert(self@.squares =~= old(self)@.squares);
            lemma_xor_algebra(key.0, 0, 0, 0);
            lemma_xor_delta(s, c, key.0, t, key.0, old(self).zobrist.0);
        }
    }

    /// Sets the en-passant target and puts its key into the position's
    /// key.
    fn hashed_mark_en_passant(&mut self, square: Square, hasher: &ZobristHasher)
        requires
            old(self).pieces_ok(),
            old(self).state.turn < 2,
            old(self).state.en_passant.is_none(),
            square.on_board(),
        ensures
            final(self).pieces_ok(),
            final(self)@.squares == old(self)@.squares,
            final(self).state == (State { en_passant: Some(square), ..old(self).state }),
            final(self).position_history == old(self).position_history,
            final(self).colors == old(self).colors,
            final(self).pieces == old(self).pieces,
            final(self).offset(hasher.keys()) == old(self).offset(hasher.keys()),
    {
        let ghost keys = hasher.keys();
        self.state.en_passant = Some(square);
        let key = hasher.hash_en_passant(self, self.state.turn);
        self.zobrist = ZobristHash(self.zobrist.0 ^ key.0);
        proof {
            let s = spec_hash_board(keys, self@.squares);
            let c = spec_hash_castling(keys, self.state.castling);
            let t = spec_hash_turn(keys, self.state.turn as int);
            assert(self@.squares =~= old(self)@.squares);
            lemma_xor_algebra(0, key.0, 0, 0);
            lemma_xor_algebra(key.0, 0, 0, 0);
            lemma_xor_delta(s, c, 0, t, key.0, old(self).zobrist.0);
        }
    }

    /// Hands the move to the other side and flips the key of the side to
    /// move.
    fn hashed_pass_turn(&mut self, hasher: &ZobristHasher)
        requires
            old(self).state.turn < 2,
            old(self).state.en_passant.is_none(),
        ensures
            final(self)@.squares == old(self)@.squares,
            final(self).state == (State {
                turn: (1 - old(self).state.turn) as usize,
                opponent: old(self).state.turn,
                ..old(self).state
            }),
            final(self).position_history == old(self).position_history,
            final(self).colors == old(self).colors,
            final(self).pieces == old(self).pieces,
            final(self).offset(hasher.keys()) == old(self).offset(hasher.keys()),
    {
        let ghost keys = hasher.keys();
        let key = hasher.turn_hash();
        self.zobrist = ZobristHash(self.zobrist.0 ^ key.0);
        self.state.change_turn();
        proof {
            let s = spec_hash_board(keys, self@.squares);
            let c = spec_hash_castling(keys, self.state.castling);
            let t = spec_hash_turn(keys, old(self).state.turn as int);
            assert(self@.squares =~= old(self)@.squares);
            lemma_xor_algebra(key.0, 0, 0, 0);
            lemma_xor_algebra(0, key.0, 0, 0);
            lemma_xor_delta(s, c, 0, t, key.0, old(self).zobrist.0);
        }
    }

    /// Whether the king of `color` stands on its home square and its rook
    /// of the long side (`long`) or the short side on that rook's.
    fn home_pair_holds(&self, color: usize, long: bool) -> (r: bool)
        requires
            self.pieces_ok(),
            color < 2,
        ensures
            r == home_pair(self@.squares, color as int, long),
    {
        let rank: u8 = if color == 0 {
            0
        } else {
            7
        };
        let rook_file: u8 = if long {
            0
        } else {
            7
        };
        let king_home = Square::new(rank * 8 + 4);
        let rook_home = Square::new(rank * 8 + rook_file);
        proof {
            assert(holds(self.pieces, color as int, 5, king_home.0 as int) == (piece_at(self.pieces, 
                king_home.0 as int,
            ) == Some(Piece { piece: 5, color })));
            assert(holds(self.pieces, color as int, 1, rook_home.0 as int) == (piece_at(self.pieces, 
                rook_home.0 as int,
            ) == Some(Piece { piece: 1, color })));
        }
        self.pieces[color][Pieces::KING].read_square(&king_home)
            && self.pieces[color][Pieces::ROOK].read_square(&rook_home)
    }

    /// Takes away castling right number `bit` if it is held and its king
    /// or rook is not at home, with its key.
    fn hashed_revoke(&mut self, bit: u8, hasher: &ZobristHasher)
        requires
            old(self).pieces_ok(),
            old(self).state.castling.wf(),
            bit < 4,
        ensures
            final(self).pieces_ok(),
            final(self)@.squares == old(self)@.squares,
            final(self).colors == old(self).colors,
            final(self).pieces == old(self).pieces,
            final(self).position_history == old(self).position_history,
            final(self).state.castling.wf(),
            forall|j: int|
                flag(final(self).state.castling.0, j) == (flag(old(self).state.castling.0, j) && (j
                    != bit || home_pair(old(self)@.squares, bit as int / 2, bit % 2 == 1))),
            final(self).state.en_passant == old(self).state.en_passant,
            final(self).state.half_moves == old(self).state.half_moves,
            final(self).state.full_moves == old(self).state.full_moves,
            final(self).state.turn == old(self).state.turn,
            final(self).state.opponent == old(self).state.opponent,
            final(self).offset(hasher.keys()) == old(self).offset(hasher.keys()),
    {
        let ghost keys = hasher.keys();
        let color: usize = if bit < 2 {
            0
        } else {
            1
        };
        let long = bit == 1 || bit == 3;
        if self.state.castling.read_bit(bit) && !self.home_pair_holds(color, long) {
            let key = ZobristHash(hasher.array[768 + bit as usize]);
            self.state.castling.set_zero(bit);
            self.zobrist = ZobristHash(self.zobrist.0 ^ key.0);
            proof {
                assert(self@.squares =~= old(self)@.squares);
                let s = spec_hash_board(keys, self@.squares);
                let e = spec_hash_en_passant(keys, self@.squares, self.state, self.state.turn as int);
                let t = spec_hash_turn(keys, self.state.turn as int);
                let k0 = key_if(keys, flag(old(self).state.castling.0, 0), 768);
                let k1 = key_if(keys, flag(old(self).state.castling.0, 1), 769);
                let k2 = key_if(keys, flag(old(self).state.castling.0, 2), 770);
                let k3 = key_if(keys, flag(old(self).state.castling.0, 3), 771);
                let c = k0 ^ k1 ^ k2 ^ k3;
                let c2 = spec_hash_castling(keys, self.state.castling);
                assert(e == spec_hash_en_passant(
                    keys,
                    old(self)@.squares,
                    old(self).state,
                    old(self).state.turn as int,
                ));
                // the four keys combine as four parts; one of them goes
                lemma_xor_delta(k0, k1, k2, k3, key.0, 0);
                lemma_xor_algebra(key.0, 0, 0, 0);
                assert(c2 == c ^ key.0);
                lemma_xor_delta(s, c, e, t, key.0, old(self).zobrist.0);
            }
        } else {
            proof {
                assert(self@.squares =~= old(self)@.squares);
            }
        }
    }

    /// Moves the pieces of a move, with their keys: the piece of kind
    /// `moving` from `origin` to `destination` as a piece of kind
    /// `final_kind`, taking what `capture` names there or, for
    /// `en_passant_capture`, the pawn beside the origin, and on `castling` the
    /// rook across the king.
    fn relocate(
        &mut self,
        origin: Square,
        destination: Square,
        moving: usize,
        final_kind: usize,
        capture: Option<usize>,
        en_passant_capture: bool,
        castling: bool,
        hasher: &ZobristHasher,
    )
        requires
            old(self).pieces_ok(),
            old(self).state.en_passant.is_none(),
            old(self).state.turn < 2,
            old(self).state.opponent == 1 - old(self).state.turn,
            origin.on_board(),
            destination.on_board(),
            origin != destination,
            moving < 6,
            final_kind < 6,
            old(self)@.has(origin.0 as int, moving as int, old(self).state.turn as int),
            capture matches Some(c) ==> c < 6 && old(self)@.has(
                destination.0 as int,
                c as int,
                old(self).state.opponent as int,
            ),
            capture.is_none() ==> old(self)@.is_empty(destination.0 as int),
            en_passant_capture ==> capture.is_none() && old(self)@.has(
                en_passant_victim(origin.0 as int, destination.0 as int),
                4,
                old(self).state.opponent as int,
            ),
            castling ==> {
                &&& rank_of(origin.0 as int) == rank_of(destination.0 as int)
                &&& file_of(origin.0 as int) == 4
                &&& (file_of(destination.0 as int) == 2 || file_of(destination.0 as int) == 6)
                &&& old(self)@.has(
                    castling_rook_origin(origin.0 as int, destination.0 as int),
                    1,
                    old(self).state.turn as int,
                )
                &&& old(self)@.is_empty(
                    castling_rook_destination(origin.0 as int, destination.0 as int),
                )
            },
        ensures
            final(self).pieces_ok(),
            final(self)@.squares == crate::position::squares_moved(
                old(self)@.squares,
                origin.0 as int,
                destination.0 as int,
                old(self).state.turn,
                final_kind,
                en_passant_capture,
                castling,
            ),
            final(self).state == old(self).state,
            final(self).position_history == old(self).position_history,
            final(self).offset(hasher.keys()) == old(self).offset(hasher.keys()),
    {
        let ghost o = origin.0 as int;
        let ghost d = destination.0 as int;
        let ghost start = self@.squares;
        let turn = self.state.turn;
        let opponent = self.state.opponent;
        self.hashed_lift(&origin, moving, turn, hasher);
        let ghost lifted = self@.squares;
        if let Some(captured) = capture {
            self.hashed_lift(&destination, captured, opponent, hasher);
        } else if en_passant_capture {
            let capture_square = Square::new(origin.get_rank() * 8 + destination.get_file());
            self.hashed_lift(&capture_square, Pieces::PAWN, opponent, hasher);
        }
        self.hashed_place(&destination, final_kind, turn, hasher);
        let ghost placed = self@.squares;
        proof {
            let taken = if en_passant_capture {
                lifted.update(en_passant_victim(o, d), None)
            } else {
                lifted
            };
            assert(placed =~= taken.update(d, Some(Piece { piece: final_kind, color: turn })));
        }
        if castling {
            let rank = origin.get_rank() * 8;
            let (rook_origin_file, rook_destination_file): (u8, u8) = if destination.get_file() == 2 {
                // long
                (0, 3)
            } else {
                // short
                (7, 5)
            };
            let rook_origin = Square::new(rank + rook_origin_file);
            let rook_destination = Square::new(rank + rook_destination_file);
            self.hashed_lift(&rook_origin, Pieces::ROOK, turn, hasher);
            self.hashed_place(&rook_destination, Pieces::ROOK, turn, hasher);
        }
    }

    /// Moves the pieces of a move and nothing else: the piece of kind
    /// `moving` from `origin` to `destination` as a piece of kind
    /// `final_kind`, taking what `capture` names there or, for
    /// `en_passant_capture`, the pawn beside the origin, and on `castling` the
    /// rook across the king.
    fn shift_pieces(
        &mut self,
        origin: Square,
        destination: Square,
        moving: usize,
        final_kind: usize,
        capture: Option<usize>,
        en_passant_capture: bool,
        castling: bool,
    )
        requires
            old(self).pieces_ok(),
            old(self).state.turn < 2,
            old(self).state.opponent == 1 - old(self).state.turn,
            origin.on_board(),
            destination.on_board(),
            origin != destination,
            moving < 6,
            final_kind < 6,
            old(self)@.has(origin.0 as int, moving as int, old(self).state.turn as int),
            capture matches Some(c) ==> c < 6 && old(self)@.has(
                destination.0 as int,
                c as int,
                old(self).state.opponent as int,
            ),
            capture.is_none() ==> old(self)@.is_empty(destination.0 as int),
            en_passant_capture ==> capture.is_none() && old(self)@.has(
                en_passant_victim(origin.0 as int, destination.0 as int),
                4,
                old(self).state.opponent as int,
            ),
            castling ==> {
                &&& rank_of(origin.0 as int) == rank_of(destination.0 as int)
                &&& file_of(origin.0 as int) == 4
                &&& (file_of(destination.0 as int) == 2 || file_of(destination.0 as int) == 6)
                &&& old(self)@.has(
                    castling_rook_origin(origin.0 as int, destination.0 as int),
                    1,
                    old(self).state.turn as int,
                )
                &&& old(self)@.is_empty(
                    castling_rook_destination(origin.0 as int, destination.0 as int),
                )
            },
        ensures
            final(self).pieces_ok(),
            final(self).synced(),
            final(self)@.squares == crate::position::squares_moved(
                old(self)@.squares,
                origin.0 as int,
                destination.0 as int,
                old(self).state.turn,
                final_kind,
                en_passant_capture,
                castling,
            ),
            final(self).state == old(self).state,
            final(self).zobrist == old(self).zobrist,
            final(self).position_history == old(self).position_history,
    {
        let ghost o = origin.0 as int;
        let ghost d = destination.0 as int;
        let turn = self.state.turn;
        let opponent = self.state.opponent;
        self.clear_piece(&origin, moving, turn);
        let ghost lifted = self@.squares;
        if let Some(captured) = capture {
            self.clear_piece(&destination, captured, opponent);
        } else if en_passant_capture {
            let capture_square = Square::new(origin.get_rank() * 8 + destination.get_file());
            self.clear_piece(&capture_square, Pieces::PAWN, opponent);
        }
        self.place_piece(&destination, final_kind, turn);
        let ghost placed = self@.squares;
        proof {
            let taken = if en_passant_capture {
                lifted.update(en_passant_victim(o, d), None)
            } else {
                lifted
            };
            assert(placed =~= taken.update(d, Some(Piece { piece: final_kind, color: turn })));
        }
        if castling {
            let rank = origin.get_rank() * 8;
            let (rook_origin_file, rook_destination_file): (u8, u8) = if destination.get_file() == 2 {
                (0, 3)
            } else {
                (7, 5)
            };
            let rook_origin = Square::new(rank + rook_origin_file);
            let rook_destination = Square::new(rank + rook_destination_file);
            self.clear_piece(&rook_origin, Pieces::ROOK, turn);
            self.place_piece(&rook_destination, Pieces::ROOK, turn);
        }
        self.sync_all_pieces();
    }

    /// Puts the pieces back that `shift_pieces` moved.
    fn unshift_pieces(
        &mut self,
        origin: Square,
        destination: Square,
        moving: usize,
        final_kind: usize,
        capture: Option<usize>,
        en_passant_capture: bool,
        castling: bool,
        Ghost(before): Ghost<Seq<Option<Piece>>>,
    )
        requires
            old(self).pieces_ok(),
            before.len() == 64,
            old(self).state.turn < 2,
            old(self).state.opponent == 1 - old(self).state.turn,
            origin.on_board(),
            destination.on_board(),
            origin != destination,
            moving < 6,
            final_kind < 6,
            before[origin.0 as int] == Some(Piece { piece: moving, color: old(self).state.turn }),
            capture matches Some(c) ==> c < 6 && before[destination.0 as int] == Some(
                Piece { piece: c, color: old(self).state.opponent },
            ),
            capture.is_none() ==> before[destination.0 as int].is_none(),
            en_passant_capture ==> capture.is_none() && before[en_passant_victim(
                origin.0 as int,
                destination.0 as int,
            )] == Some(Piece { piece: 4, color: old(self).state.opponent }) && crate::moves::geometry::on_board(
                en_passant_victim(origin.0 as int, destination.0 as int),
            ),
            castling ==> {
                &&& rank_of(origin.0 as int) == rank_of(destination.0 as int)
                &&& file_of(origin.0 as int) == 4
                &&& (file_of(destination.0 as int) == 2 || file_of(destination.0 as int) == 6)
                &&& before[castling_rook_origin(origin.0 as int, destination.0 as int)] == Some(
                    Piece { piece: 1, color: old(self).state.turn },
                )
                &&& before[castling_rook_destination(origin.0 as int, destination.0 as int)].is_none()
            },
            old(self)@.squares == crate::position::squares_moved(
                before,
                origin.0 as int,
                destination.0 as int,
                old(self).state.turn,
                final_kind,
                en_passant_capture,
                castling,
            ),
        ensures
            final(self).pieces_ok(),
            final(self).synced(),
            final(self)@.squares == before,
            final(self).state == old(self).state,
            final(self).zobrist == old(self).zobrist,
            final(self).position_history == old(self).position_history,
    {
        let ghost o = origin.0 as int;
        let ghost d = destination.0 as int;
        let turn = self.state.turn;
        let opponent = self.state.opponent;
        if castling {
            let rank = origin.get_rank() * 8;
            let (rook_origin_file, rook_destination_file): (u8, u8) = if destination.get_file() == 2 {
                (0, 3)
            } else {
                (7, 5)
            };
            let rook_origin = Square::new(rank + rook_origin_file);
            let rook_destination = Square::new(rank + rook_destination_file);
            self.clear_piece(&rook_destination, Pieces::ROOK, turn);
            self.place_piece(&rook_origin, Pieces::ROOK, turn);
        }
        self.clear_piece(&destination, final_kind, turn);
        if let Some(captured) = capture {
            self.place_piece(&destination, captured, opponent);
        } else if en_passant_capture {
            let capture_square = Square::new(origin.get_rank() * 8 + destination.get_file());
            self.place_piece(&capture_square, Pieces::PAWN, opponent);
        }
        self.place_piece(&origin, moving, turn);
        self.sync_all_pieces();
        proof {
            assert(self@.squares =~= before);
        }
    }

    /// Takes away, with their keys, the castling rights whose king or rook
    /// does not stand at home.
    fn update_castling_rights(&mut self, hasher: &ZobristHasher)
        requires
            old(self).pieces_ok(),
            old(self).state.castling.wf(),
        ensures
            final(self).pieces_ok(),
            final(self)@.squares == old(self)@.squares,
            final(self).position_history == old(self).position_history,
            final(self).state == (State {
                castling: crate::position::castling_kept(old(self).state.castling, old(self)@.squares),
                ..old(self).state
            }),
            final(self).state.castling.wf(),
            crate::position::castling_consistent(final(self)@.squares, final(self).state.castling),
            final(self).offset(hasher.keys()) == old(self).offset(hasher.keys()),
    {
        let ghost after = self@.squares;
        let ghost c = self.state.castling.0;
        if self.state.castling.can_someone_castle() {
            self.hashed_revoke(0, hasher);
            self.hashed_revoke(1, hasher);
            self.hashed_revoke(2, hasher);
            self.hashed_revoke(3, hasher);
        } else {
            proof {
                crate::types::state::lemma_flag_groups(0u8, 0);
                crate::types::state::lemma_flag_groups(0u8, 1);
                crate::types::state::lemma_flag_groups(0u8, 2);
                crate::types::state::lemma_flag_groups(0u8, 3);
            }
        }
        proof {
            let a0 = flag(c, 0) && home_pair(after, 0, false);
            let a1 = flag(c, 1) && home_pair(after, 0, true);
            let a2 = flag(c, 2) && home_pair(after, 1, false);
            let a3 = flag(c, 3) && home_pair(after, 1, true);
            lemma_flags_of_value(a0, a1, a2, a3);
            assert(flag(self.state.castling.0, 0) == a0);
            assert(flag(self.state.castling.0, 1) == a1);
            assert(flag(self.state.castling.0, 2) == a2);
            assert(flag(self.state.castling.0, 3) == a3);
            lemma_flag_ext(self.state.castling.0, castling_of_flags(a0, a1, a2, a3).0);
        }
    }

    /// Counts the move, hands the turn over and, after a double push, sets
    /// the en-passant target `target`, with the keys.
    fn advance_state(&mut self, resets_clock: bool, target: Option<Square>, hasher: &ZobristHasher)
        requires
            old(self).pieces_ok(),
            old(self).state.en_passant.is_none(),
            old(self).state.turn < 2,
            old(self).state.half_moves < u8::MAX,
            old(self).state.turn == 1 ==> old(self).state.full_moves < u16::MAX,
            target matches Some(sq) ==> sq.on_board(),
        ensures
            final(self).pieces_ok(),
            final(self)@.squares == old(self)@.squares,
            final(self).position_history == old(self).position_history,
            final(self).state == (State {
                castling: old(self).state.castling,
                en_passant: target,
                half_moves: if resets_clock {
                    0
                } else {
                    (old(self).state.half_moves + 1) as u8
                },
                full_moves: if old(self).state.turn == 1 {
                    (old(self).state.full_moves + 1) as u16
                } else {
                    old(self).state.full_moves
                },
                turn: (1 - old(self).state.turn) as usize,
                opponent: old(self).state.turn,
            }),
            final(self).offset(hasher.keys()) == old(self).offset(hasher.keys()),
    {
        let ghost keys = hasher.keys();
        if resets_clock {
            self.state.reset_half_move();
        } else {
            self.state.increment_half_move();
        }
        if self.state.turn == Color::BLACK {
            self.state.increment_full_move();
        }
        assert(self.offset(keys) == old(self).offset(keys));
        self.hashed_pass_turn(hasher);
        if let Some(en_passant_square) = target {
            self.hashed_mark_en_passant(en_passant_square, hasher);
        }
    }

    /// Makes `the_move` and returns the record that takes it back.
    ///
    /// The piece goes from origin to destination, taking what stands there
    /// or, for a pawn that moves to the en-passant target, the pawn that
    /// passed it; a promoting pawn turns into the chosen piece; on castling
    /// the rook crosses the king. The half-move clock starts over on captures
    /// and pawn moves and otherwise counts on, the full-move number counts on
    /// after a move of black, the en-passant target is the square that a
    /// double push passed over, and the castling rights go whose king or rook
    /// is no longer at home. The key follows every change, and the new key
    /// joins the history.
    pub fn make_move(&mut self, the_move: &Move, hasher: &ZobristHasher) -> (helper: UnmakeMoveHelper)
        requires
            old(self).pieces_ok(),
            old(self)@.applicable(*the_move),
        ensures
            final(self)@ == old(self)@.after_move(*the_move, hasher.keys()),
            helper == old(self)@.unmake_record(*the_move),
            final(self).wf(),
            old(self).hash_ok(hasher) ==> final(self).hash_ok(hasher),
    {
        let ghost keys = hasher.keys();
        let ghost before = self@;
        let ghost m = *the_move;
        let origin = the_move.get_origin();
        let destination = the_move.get_destination();
        let ghost o = origin.0 as int;
        let ghost d = destination.0 as int;
        let prev_en_passant = self.state.en_passant;
        let prev_halfmove = self.state.half_moves;
        let prev_hash = self.zobrist;
        let prev_castling: Castling = self.state.castling;
        let turn = self.state.turn;

        let moving_piece_type = match self.get_piece_on_square(&origin) {
            Some(p) => p.piece,
            None => 0,
        };
        let capture: Option<usize> = match self.get_piece_on_square(&destination) {
            Some(q) => Some(q.piece),
            None => None,
        };
        let is_en_passant_capture = capture.is_none() && moving_piece_type == Pieces::PAWN
            && self.check_en_passant(&destination);
        let move_bb = BitBoard(
            BitBoard::zeros_with_one_bit(&origin).0 ^ BitBoard::zeros_with_one_bit(&destination).0,
        );
        let is_castling = the_move.get_promotion_piece().is_none() && match the_move.get_special_move() {
            Some(special) => !special,
            None => false,
        };
        let is_double_push = the_move.get_promotion_piece().is_none()
            && match the_move.get_special_move() {
            Some(special) => special,
            None => false,
        };
        let final_kind = match the_move.get_promotion_piece() {
            Some(promotion_piece) => promotion_piece,
            None => moving_piece_type,
        };
        let target: Option<Square> = if is_double_push {
            let en_passant_rank = if turn == Color::WHITE {
                origin.get_rank() + 1
            } else {
                origin.get_rank() - 1
            };
            Some(Square::new(en_passant_rank * 8 + destination.get_file()))
        } else {
            None
        };
        assert(moving_piece_type == before.moving_kind(m));
        assert(capture.is_some() == before.is_capture(m));
        assert(is_en_passant_capture == before.is_en_passant_capture(m));

        self.hashed_clear_en_passant(hasher);
        self.relocate(
            origin,
            destination,
            moving_piece_type,
            final_kind,
            capture,
            is_en_passant_capture,
            is_castling,
            hasher,
        );
        assert(self@.squares == before.squares_after(m));
        self.update_castling_rights(hasher);
        self.advance_state(moving_piece_type == Pieces::PAWN || capture.is_some(), target, hasher);
        assert(self.state == before.state_after(m));
        self.sync_all_pieces();
        proof {
            let full_before = spec_hash_everything(keys, before.squares, before.state);
            let full_after = spec_hash_everything(keys, self@.squares, self.state);
            assert(self.zobrist.0 ^ full_after == before.zobrist.0 ^ full_before);
            lemma_xor_algebra(self.zobrist.0, full_after, before.zobrist.0, full_before);
            crate::types::bits::lemma_xor_zero(before.zobrist.0, full_before);
            crate::types::bits::lemma_xor_zero(self.zobrist.0, full_after);
        }
        self.position_history.push(self.zobrist);
        proof {
            assert(self@.history == before.history.push(self.zobrist));
            assert(self@ == before.after_move(m, keys));
            lemma_after_move_wf(before, m, keys);
        }

        UnmakeMoveHelper {
            origin,
            destination,
            move_bb,
            piece: moving_piece_type,
            capture,
            prev_en_passant,
            prev_hash,
            prev_halfmove,
            prev_castling,
            was_promotion: the_move.get_promotion_piece().is_some(),
            was_castling: is_castling,
        }
    }
}

impl Board {
    /// Takes back the move that `helper` records: the piece returns to its
    /// origin (a promoted piece as the pawn it was), what it took returns,
    /// the rook of a castling returns to its corner, and state, key and
    /// history are those from before the move.
    pub fn unmake_move(&mut self, helper: UnmakeMoveHelper)
        requires
            old(self).pieces_ok(),
            old(self)@.can_unmake(helper),
        ensures
            final(self)@ == old(self)@.before_move(helper),
            final(self).pieces_ok(),
            final(self).synced(),
    {
        let ghost start = self@;
        let ghost o = helper.origin.0 as int;
        let ghost d = helper.destination.0 as int;
        self.state.change_turn();
        let mover = self.state.turn;
        let victim = self.state.opponent;
        assert(self@.squares == start.squares);

        if helper.was_castling {
            let rank = helper.destination.get_rank();
            let (origin_file, destination_file): (u8, u8) = if helper.destination.get_file() == 2 {
                // long
                (0, 3)
            } else {
                // short
                (7, 5)
            };
            let rook_origin = Square::new(rank * 8 + origin_file);
            let rook_destination = Square::new(rank * 8 + destination_file);
            self.move_piece(&rook_destination, &rook_origin, Pieces::ROOK, mover);
        }
        let ghost unrooked = self@.squares;
        proof {
            if helper.was_castling {
                assert(unrooked =~= start.squares.update(castling_rook_destination(o, d), None).update(
                    castling_rook_origin(o, d),
                    Some(Piece { piece: 1, color: mover }),
                ));
            }
        }
        let standing = match self.get_piece_on_square(&helper.destination) {
            Some(p) => p.piece,
            None => 0,
        };
        self.clear_piece(&helper.destination, standing, mover);
        if let Some(captured_piece) = helper.capture {
            self.place_piece(&helper.destination, captured_piece, victim);
        }
        let ghost emptied = self@.squares;
        proof {
            assert(emptied =~= unrooked.update(
                d,
                match helper.capture {
                    Some(c) => Some(Piece { piece: c, color: victim }),
                    None => None,
                },
            ));
        }
        let was_en_passant = helper.piece == Pieces::PAWN && match helper.prev_en_passant {
            Some(en_passant) => helper.destination.0 == en_passant.0,
            None => false,
        };
        if was_en_passant {
            let capture_square = Square::new(
                helper.origin.get_rank() * 8 + helper.destination.get_file(),
            );
            self.place_piece(&capture_square, Pieces::PAWN, victim);
        }
        self.place_piece(&helper.origin, helper.piece, mover);

        if mover == Color::BLACK {
            self.state.restore_full_move();
        }
        self.state.en_passant = helper.prev_en_passant;
        self.state.castling = helper.prev_castling;
        self.state.half_moves = helper.prev_halfmove;
        self.zobrist = helper.prev_hash;
        self.position_history.pop();
        self.sync_all_pieces();
        proof {
            assert(self@.history =~= start.history.drop_last());
        }
    }
}

/// The kind of the piece on file `file` of a side's back rank at the
/// start of a game: rook, knight, bishop, queen, king, bishop, knight, rook.
pub open spec fn back_rank_kind(file: int) -> usize {
    if file == 0 || file == 7 {
        1
    } else if file == 1 || file == 6 {
        3
    } else if file == 2 || file == 5 {
        2
    } else if file == 3 {
        0
    } else {
        5
    }
}

/// What stands on `s` at the start of a game.
pub open spec fn start_piece(s: int) -> Option<Piece> {
    if rank_of(s) == 0 {
        Some(Piece { piece: back_rank_kind(file_of(s)), color: 0 })
    } else if rank_of(s) == 1 {
        Some(Piece { piece: 4, color: 0 })
    } else if rank_of(s) == 6 {
        Some(Piece { piece: 4, color: 1 })
    } else if rank_of(s) == 7 {
        Some(Piece { piece: back_rank_kind(file_of(s)), color: 1 })
    } else {
        None
    }
}

/// The position at the start of a game, but for key and history: white to
/// move, every castling right, no en-passant target, move number one.
pub open spec fn is_start_position(pos: Position) -> bool {
    &&& pos.squares == Seq::new(64, |s: int| start_piece(s))
    &&& pos.state == (State {
        castling: Castling(0b1111),
        en_passant: None,
        half_moves: 0,
        full_moves: 1,
        turn: 0,
        opponent: 1,
    })
}

/// The first of the first `n` of `moves` that is the same move as `m`, or
/// `n` if there is none.
pub open spec fn first_same(moves: Seq<Move>, m: Move, n: int) -> int
    decreases n,
{
    if n <= 0 {
        0
    } else if first_same(moves, m, n - 1) < n - 1 {
        first_same(moves, m, n - 1)
    } else if moves[n - 1].same_as(&m) {
        n - 1
    } else {
        n
    }
}

impl Default for Board {
    /// The board at the start of a game, keyed with the Polyglot keys.
    fn default() -> (b: Self)
        ensures
            b.wf(),
            is_start_position(b@),
            b@.history == seq![b.zobrist],
            b.zobrist.0 == spec_hash_everything(
                crate::utils::polyglot_array::POLYGLOT_RAND_ARRAY@,
                b@.squares,
                b.state,
            ),
    {
        let hasher = ZobristHasher::load();
        Board::new(&hasher)
    }
}

/// The kind of the piece on file `file` of a back rank at the start.
fn back_rank_piece(file: u8) -> (kind: usize)
    requires
        file < 8,
    ensures
        kind == back_rank_kind(file as int),
{
    if file == 0 || file == 7 {
        Pieces::ROOK
    } else if file == 1 || file == 6 {
        Pieces::KNIGHT
    } else if file == 2 || file == 5 {
        Pieces::BISHOP
    } else if file == 3 {
        Pieces::QUEEN
    } else {
        Pieces::KING
    }
}

impl Board {
    /// The board at the start of a game.
    pub fn new(hasher: &ZobristHasher) -> (b: Self)
        ensures
            b.wf(),
            b.hash_ok(hasher),
            is_start_position(b@),
            b@.history == seq![b.zobrist],
    {
        let mut b = Board::empty();
        let mut file: u8 = 0;
        while file < 8
            invariant
                file <= 8,
                b.pieces_ok(),
                b.state.castling.0 == 0b1111,
                b.state.en_passant.is_none(),
                b.state.half_moves == 0,
                b.state.full_moves == 0,
                b.state.turn == 0,
                b.state.opponent == 1,
                b.position_history@.len() == 0,
                forall|s: int|
                    0 <= s < 64 ==> #[trigger] b@.squares[s] == (if file_of(s) < file {
                        start_piece(s)
                    } else {
                        None
                    }),
            decreases 8 - file,
        {
            let kind = back_rank_piece(file);
            b.place_piece(&Square::new(file), kind, Color::WHITE);
            b.place_piece(&Square::new(8 + file), Pieces::PAWN, Color::WHITE);
            b.place_piece(&Square::new(48 + file), Pieces::PAWN, Color::BLACK);
            b.place_piece(&Square::new(56 + file), kind, Color::BLACK);
            file = file + 1;
        }
        let ghost filled = b@.squares;
        assert(filled =~= Seq::new(64, |s: int| start_piece(s)));
        b.state.full_moves = 1;
        b.sync_all_pieces();
        b.zobrist = hasher.hash_everyting(&b);
        b.position_history.push(b.zobrist);
        proof {
            assert(b@.squares == filled);
            assert(b.state.castling == Castling(0b1111));
            assert forall|j: int| flag(0b1111u8, j) == (0 <= j < 4) by {
                crate::types::state::lemma_flag_groups(0u8, j);
            }
            assert(b@.history =~= seq![b.zobrist]);
        }
        b
    }

    /// Whether the position is sound: each side has exactly one king and
    /// the side not to move is not in check.
    pub fn is_sound(&self, move_gen_masks: &MoveGenMasks) -> (r: bool)
        requires
            self.wf(),
            move_gen_masks.wf(),
        ensures
            r == sound(self@),
    {
        let turn = self.state.turn;
        let other = self.state.opponent;
        proof {
            lemma_one_king_count(self@, 0);
            lemma_one_king_count(self@, 1);
            lemma_piece_board(self, 5, 0);
            lemma_piece_board(self, 5, 1);
        }
        if self.pieces[0][Pieces::KING].count() != 1 || self.pieces[1][Pieces::KING].count() != 1 {
            return false;
        }
        proof {
            lemma_sound_kings(self@);
            lemma_king_square(self@, other as int);
        }
        let their_king = self.pieces[other][Pieces::KING].get_one();
        !square_attacked_by(&their_king, self, move_gen_masks, turn)
    }

    /// Whether the counters have room for one more move.
    pub fn is_ready(&self) -> (r: bool)
        requires
            self.wf(),
        ensures
            r == self@.ready(),
    {
        self.state.half_moves < u8::MAX && (self.state.turn == 0 || self.state.full_moves
            < u16::MAX)
    }

    /// Whether the counters have room for `plies` more moves.
    pub fn has_room(&self, plies: u16) -> (r: bool)
        ensures
            r == self@.has_room(plies as int),
    {
        self.state.half_moves as u32 + plies as u32 <= 255 && self.state.full_moves as u32
            + plies as u32 <= 65535
    }

    /// Whether the king of the side to move is attacked.
    pub fn is_check(&self, move_gen_masks: &MoveGenMasks) -> (r: bool)
        requires
            self.pieces_ok(),
            self.synced(),
            move_gen_masks.wf(),
            self.state.turn < 2,
            self.state.opponent == 1 - self.state.turn,
            self@.has_king(self.state.turn as int),
        ensures
            r == in_check(self@, self.state.turn as int),
    {
        proof {
            lemma_king_square(self@, self.state.turn as int);
            lemma_boards_of_position(self);
            lemma_piece_board(self, 5, self.state.turn as int);
        }
        let king_square = self.pieces[self.state.turn][Pieces::KING].get_one();
        is_square_in_check(&king_square, self, move_gen_masks)
    }

    /// The legal moves of the side to move: each generated move is made,
    /// kept if the mover's king is then not attacked, and taken back. The
    /// board is afterwards what it was.
    pub fn get_legal_moves(&mut self, move_gen_masks: &MoveGenMasks, hasher: &ZobristHasher) -> (result:
        Vec<Move>)
        requires
            old(self).wf(),
            old(self)@.ready(),
            old(self)@.has_king(old(self).state.turn as int),
            move_gen_masks.wf(),
        ensures
            result@ == spec_legal_moves(old(self)@),
            final(self)@ == old(self)@,
            final(self).colors == old(self).colors,
            final(self).pieces == old(self).pieces,
            final(self).all_pieces == old(self).all_pieces,
            final(self).wf(),
    {
        let ghost start = self@;
        let ghost keys = hasher.keys();
        let ghost keep = |m: Move| leaves_king_safe(start, m);
        let candidates = get_all_moves(self, move_gen_masks);
        let mover = self.state.turn;
        let mut legal: Vec<Move> = Vec::with_capacity(candidates.len());
        let mut i: usize = 0;
        proof {
            lemma_all_moves_applicable(start);
            lemma_moves_name_their_piece(start);
        }
        while i < candidates.len()
            invariant
                self@ == start,
                self.pieces_ok(),
                self.synced(),
                all_moves_satisfy(candidates@, |m: Move| names_its_piece(start, m)),
                start.ready(),
                start.has_king(mover as int),
                mover == start.state.turn,
                move_gen_masks.wf(),
                keys == hasher.keys(),
                candidates@ == spec_all_moves(start),
                all_applicable(start, candidates@),
                i <= candidates.len(),
                keep == (|m: Move| leaves_king_safe(start, m)),
                legal@ == kept(candidates@, keep, i as int),
            decreases candidates.len() - i,
        {
            let the_move = candidates[i];
            assert(start.applicable(the_move));
            assert(names_its_piece(start, the_move));
            let origin = the_move.get_origin();
            let destination = the_move.get_destination();
            let moving = the_move.moving_piece;
            proof {
                lemma_boards_of_position(self);
                assert(self.colors[self.state.opponent as int].has(destination.0 as int)
                    == start.has_color(destination.0 as int, self.state.opponent as int));
            }
            let capture: Option<usize> = if self.colors[self.state.opponent].read_square(
                &destination,
            ) {
                match self.get_piece_on_square(&destination) {
                    Some(q) => Some(q.piece),
                    None => None,
                }
            } else {
                None
            };
            let en_passant_capture = capture.is_none() && moving == Pieces::PAWN
                && self.check_en_passant(&destination);
            let castling = the_move.get_promotion_piece().is_none()
                && match the_move.get_special_move() {
                Some(special) => !special,
                None => false,
            };
            let final_kind = match the_move.get_promotion_piece() {
                Some(promotion_piece) => promotion_piece,
                None => moving,
            };
            assert(moving == start.moving_kind(the_move));
            assert(capture.is_some() == start.is_capture(the_move));
            assert(en_passant_capture == start.is_en_passant_capture(the_move));
            // the move is tried on the pieces alone: key, state and history
            // play no part in whether the king is attacked
            self.shift_pieces(
                origin,
                destination,
                moving,
                final_kind,
                capture,
                en_passant_capture,
                castling,
            );
            proof {
                assert(self@.squares == start.squares_after(the_move));
                lemma_mover_keeps_king(start, the_move);
                lemma_attacked_by_squares(
                    self@,
                    start.moved(the_move),
                    king_square(self@, mover as int),
                    1 - mover,
                );
                lemma_king_square_same(self@, start.moved(the_move), mover as int);
                assert(self@.has_king(mover as int)) by {
                    let s = choose|s: int| #[trigger] start.moved(the_move).has(s, 5, mover as int);
                    assert(self@.has(s, 5, mover as int));
                }
                lemma_king_square(self@, mover as int);
                lemma_boards_of_position(self);
                lemma_piece_board(self, 5, mover as int);
            }
            let king = self.pieces[mover][Pieces::KING].get_one();
            let safe = !square_attacked_by(&king, self, move_gen_masks, self.state.opponent);
            proof {
                assert(safe == keep(the_move));
            }
            self.unshift_pieces(
                origin,
                destination,
                moving,
                final_kind,
                capture,
                en_passant_capture,
                castling,
                Ghost(start.squares),
            );
            if safe {
                legal.push(the_move);
            }
            i = i + 1;
        }
        proof {
            lemma_view_determines_boards(*old(self), *self);
        }
        legal
    }

    /// The legal moves that take a piece: the one on their destination,
    /// or en passant the pawn that just passed.
    pub fn get_capture_moves(&mut self, move_gen_masks: &MoveGenMasks, hasher: &ZobristHasher) -> (result:
        Vec<Move>)
        requires
            old(self).wf(),
            old(self)@.ready(),
            old(self)@.has_king(old(self).state.turn as int),
            move_gen_masks.wf(),
        ensures
            result@ == spec_capture_moves(old(self)@),
            final(self)@ == old(self)@,
            final(self).colors == old(self).colors,
            final(self).pieces == old(self).pieces,
            final(self).all_pieces == old(self).all_pieces,
            final(self).wf(),
    {
        let ghost start = self@;
        let ghost keep = |m: Move| start.takes(m);
        let legal_moves = self.get_legal_moves(move_gen_masks, hasher);
        let mut captures: Vec<Move> = Vec::new();
        let mut i: usize = 0;
        proof {
            lemma_legal_moves_sound(start);
            lemma_boards_of_position(self);
        }
        while i < legal_moves.len()
            invariant
                self@ == start,
                self.pieces_ok(),
                self.synced(),
                start.wf(),
                legal_moves@ == spec_legal_moves(start),
                all_applicable(start, legal_moves@),
                i <= legal_moves.len(),
                keep == (|m: Move| start.takes(m)),
                captures@ == kept(legal_moves@, keep, i as int),
            decreases legal_moves.len() - i,
        {
            let legal_move = legal_moves[i];
            assert(start.applicable(legal_move));
            proof {
                lemma_boards_of_position(self);
                assert(self.colors[self.state.opponent as int].has(legal_move.destination.0 as int)
                    == start.has_color(legal_move.destination.0 as int, self.state.opponent as int));
            }
            let destination = legal_move.get_destination();
            let takes_there = self.colors[self.state.opponent].read_square(&destination);
            let takes_in_passing = !takes_there && self.check_en_passant(&destination)
                && match self.get_piece_on_square(&legal_move.get_origin()) {
                Some(piece) => piece.piece == Pieces::PAWN,
                None => false,
            };
            if takes_there || takes_in_passing {
                captures.push(legal_move);
            }
            i = i + 1;
        }
        captures
    }

    /// Makes the legal move that is the same move as `the_move`, if there
    /// is one, and says whether it did.
    pub fn check_and_make_move(
        &mut self,
        the_move: &Move,
        move_gen_masks: &MoveGenMasks,
        hasher: &ZobristHasher,
    ) -> (made: bool)
        requires
            old(self).wf(),
            old(self)@.ready(),
            old(self)@.has_king(old(self).state.turn as int),
            move_gen_masks.wf(),
        ensures
            ({
                let legal = spec_legal_moves(old(self)@);
                let j = first_same(legal, *the_move, legal.len() as int);
                &&& made == (j < legal.len())
                &&& made ==> final(self)@ == old(self)@.after_move(legal[j], hasher.keys())
                &&& !made ==> final(self)@ == old(self)@
            }),
            final(self).wf(),
            old(self).hash_ok(hasher) ==> final(self).hash_ok(hasher),
    {
        let ghost start = self@;
        let legal_moves = self.get_legal_moves(move_gen_masks, hasher);
        proof {
            lemma_legal_moves_sound(start);
        }
        let mut i: usize = 0;
        while i < legal_moves.len()
            invariant
                self@ == start,
                start == old(self)@,
                self.wf(),
                self.hash_ok(hasher) == old(self).hash_ok(hasher),
                legal_moves@ == spec_legal_moves(start),
                all_applicable(start, legal_moves@),
                i <= legal_moves.len(),
                first_same(legal_moves@, *the_move, i as int) == i,
            decreases legal_moves.len() - i,
        {
            let possible_move = legal_moves[i];
            if possible_move == *the_move {
                assert(possible_move.same_as(the_move));
                assert(start.applicable(possible_move));
                self.make_move(&possible_move, hasher);
                proof {
                    lemma_first_same_stays(legal_moves@, *the_move, i as int, legal_moves.len() as int);
                    assert(first_same(legal_moves@, *the_move, legal_moves.len() as int) == i);
                    assert(self@ == start.after_move(legal_moves@[i as int], hasher.keys()));
                }
                return true;
            }
            i = i + 1;
        }
        false
    }
}

/// Each side with exactly one king has a king.
pub proof fn lemma_sound_kings(pos: Position)
    requires
        one_king(pos, 0),
        one_king(pos, 1),
    ensures
        pos.has_king(0),
        pos.has_king(1),
{
    let a = choose|s: int| #[trigger] pos.has(s, 5, 0) && forall|t: int| pos.has(t, 5, 0) ==> t == s;
    assert(pos.has(a, 5, 0));
    let b = choose|s: int| #[trigger] pos.has(s, 5, 1) && forall|t: int| pos.has(t, 5, 1) ==> t == s;
    assert(pos.has(b, 5, 1));
}

/// The first match lies among the moves looked at, or is their number.
pub proof fn lemma_first_same_bounds(moves: Seq<Move>, m: Move, n: int)
    requires
        0 <= n,
    ensures
        0 <= first_same(moves, m, n) <= n,
        first_same(moves, m, n) < n ==> moves[first_same(moves, m, n)].same_as(&m),
    decreases n,
{
    if n > 0 {
        lemma_first_same_bounds(moves, m, n - 1);
    }
}

/// Once a match is found among the first `i + 1` moves, it stays the first
/// match among any more.
proof fn lemma_first_same_stays(moves: Seq<Move>, m: Move, i: int, n: int)
    requires
        0 <= i < n <= moves.len(),
        first_same(moves, m, i) == i,
        moves[i].same_as(&m),
    ensures
        first_same(moves, m, n) == i,
    decreases n - i,
{
    if n > i + 1 {
        lemma_first_same_stays(moves, m, i, n - 1);
    }
}

/// The board of the kings of `color` is the board of the position's kings
/// of that colour, and so for every kind.
pub proof fn lemma_piece_board(board: &Board, kind: int, color: int)
    requires
        board.pieces_ok(),
        0 <= kind < 6,
        0 <= color < 2,
    ensures
        board.pieces[color][kind].0 == board@.piece_board(kind, color),
{
    let pos = board@;
    let pred = |s: int| pos.has(s, kind, color);
    assert forall|t: int| 0 <= t < 64 implies bit(board.pieces[color][kind].0, t) == pred(t) by {
        assert(holds(board.pieces, color, kind, t) == (piece_at(board.pieces, t) == Some(
            Piece { piece: kind as usize, color: color as usize },
        )));
    }
    crate::types::bits::lemma_board_of_unique(pred, board.pieces[color][kind].0);
}

/// Positions with the same pieces have their kings on the same squares.
pub proof fn lemma_king_square_same(p: Position, q: Position, color: int)
    requires
        p.squares == q.squares,
    ensures
        king_square(p, color) == king_square(q, color),
{
    crate::types::bits::lemma_board_of_agree(|t: int| p.has(t, 5, color), |t: int| q.has(t, 5, color));
}

/// Taking a move back undoes making it: the position is, square for
/// square and field for field, the one from before.
pub proof fn lemma_unmake_restores(before: Position, m: Move, keys: Seq<u64>)
    requires
        before.applicable(m),
    ensures
        before.after_move(m, keys).can_unmake(before.unmake_record(m)),
        before.after_move(m, keys).before_move(before.unmake_record(m)) == before,
{
    let after = before.after_move(m, keys);
    let record = before.unmake_record(m);
    let back = after.before_move(record);
    let o = m.origin.0 as int;
    let d = m.destination.0 as int;
    lemma_after_move_wf(before, m, keys);
    assert(record.was_en_passant() == before.is_en_passant_capture(m));
    assert(after.can_unmake(record));
    assert(back.squares =~= before.squares) by {
        assert forall|s: int| 0 <= s < 64 implies back.squares[s] == before.squares[s] by {}
    }
    assert(back.history =~= before.history);
    assert(back.state == before.state);
}

/// Boards that agree with themselves and show the same position are the
/// same boards, bit for bit.
pub proof fn lemma_view_determines_boards(a: Board, b: Board)
    requires
        a.pieces_ok(),
        b.pieces_ok(),
        a.synced(),
        b.synced(),
        a@.squares == b@.squares,
    ensures
        a.colors == b.colors,
        a.pieces == b.pieces,
        a.all_pieces == b.all_pieces,
{
    assert forall|s: int| 0 <= s < 64 implies piece_at(a.pieces, s) == piece_at(b.pieces, s) by {
        assert(a@.squares[s] == b@.squares[s]);
    }
    assert forall|c: int, p: int| 0 <= c < 2 && 0 <= p < 6 implies a.pieces[c][p] == b.pieces[c][p] by {
        assert forall|s: int| 0 <= s < 64 implies bit(a.pieces[c][p].0, s) == bit(b.pieces[c][p].0, s) by {
            assert(holds(a.pieces, c, p, s) == holds(b.pieces, c, p, s));
        }
        crate::types::bits::lemma_bit_ext(a.pieces[c][p].0, b.pieces[c][p].0);
    }
    assert forall|c: int| 0 <= c < 2 implies a.colors[c] == b.colors[c] by {
        assert forall|s: int| 0 <= s < 64 implies bit(a.colors[c].0, s) == bit(b.colors[c].0, s) by {
            assert(a.colors[c].has(s) == b.colors[c].has(s));
        }
        crate::types::bits::lemma_bit_ext(a.colors[c].0, b.colors[c].0);
    }
    assert(a.pieces[0] =~= b.pieces[0]);
    assert(a.pieces[1] =~= b.pieces[1]);
    assert(a.pieces =~= b.pieces);
    assert(a.colors =~= b.colors);
}

/// A key that is the full key of its position is, after a move, the full
/// key of the position after the move.
pub proof fn lemma_key_stays_right(before: Position, m: Move, keys: Seq<u64>)
    requires
        before.zobrist.0 == spec_hash_everything(keys, before.squares, before.state),
    ensures
        before.after_move(m, keys).zobrist.0 == spec_hash_everything(
            keys,
            before.after_move(m, keys).squares,
            before.after_move(m, keys).state,
        ),
{
    let full_before = spec_hash_everything(keys, before.squares, before.state);
    let full_after = spec_hash_everything(keys, before.squares_after(m), before.state_after(m));
    lemma_xor_algebra(full_before, full_before, full_after, 0);
    lemma_xor_algebra(full_after, 0, 0, 0);
    lemma_xor_algebra(0, full_after, 0, 0);
}

/// A well-formed position is well formed after any move that can be made
/// in it.
pub proof fn lemma_after_move_wf(before: Position, m: Move, keys: Seq<u64>)
    requires
        before.applicable(m),
    ensures
        before.after_move(m, keys).wf(),
{
    let now = before.after_move(m, keys);
    assert forall|s: int| 0 <= s < 64 implies ((#[trigger] now.squares[s]) matches Some(p)
        ==> p.wf()) by {
        assert(before.squares[s] matches Some(p) ==> p.wf());
    }
    assert forall|s: int| 0 <= s < 64 && crate::position::is_pawn(#[trigger] now.squares[s]) implies 1
        <= rank_of(s) <= 6 by {
        assert(crate::position::is_pawn(before.squares[s]) ==> 1 <= rank_of(s) <= 6);
    }
    let c = before.state.castling.0;
    let after = before.squares_after(m);
    let a0 = flag(c, 0) && home_pair(after, 0, false);
    let a1 = flag(c, 1) && home_pair(after, 0, true);
    let a2 = flag(c, 2) && home_pair(after, 1, false);
    let a3 = flag(c, 3) && home_pair(after, 1, true);
    lemma_flags_of_value(a0, a1, a2, a3);
}

/// On a board whose parts agree, the board of all pieces is the union of
/// the boards of the two colours.
pub proof fn lemma_all_pieces_is_union(board: Board)
    requires
        board.wf(),
    ensures
        board.all_pieces.0 == board.colors[0].0 | board.colors[1].0,
{
}

/// How many of the lowest `n` squares the boards of the kinds of colour
/// `c` hold, all kinds together.
pub open spec fn count_of_kinds(pieces: [[BitBoard; 6]; 2], c: int, n: int) -> nat {
    crate::types::bits::count_bits(pieces[c][0].0, n) + crate::types::bits::count_bits(
        pieces[c][1].0,
        n,
    ) + crate::types::bits::count_bits(pieces[c][2].0, n) + crate::types::bits::count_bits(
        pieces[c][3].0,
        n,
    ) + crate::types::bits::count_bits(pieces[c][4].0, n) + crate::types::bits::count_bits(
        pieces[c][5].0,
        n,
    )
}

proof fn lemma_kinds_counted(board: Board, c: int, n: int)
    requires
        board.pieces_ok(),
        0 <= c < 2,
        0 <= n <= 64,
    ensures
        count_of_kinds(board.pieces, c, n) == crate::types::bits::count_bits(board.colors[c].0, n),
    decreases n,
{
    if n > 0 {
        lemma_kinds_counted(board, c, n - 1);
        let s = n - 1;
        let here = piece_at(board.pieces, s);
        assert(bit(board.colors[c].0, s) == (here matches Some(q) && q.color == c)) by {
            assert(board.colors[c].has(s) == (here matches Some(q) && q.color == c));
        }
        assert(bit(board.pieces[c][0].0, s) == (here == Some(Piece { piece: 0, color: c as usize }))) by {
            assert(holds(board.pieces, c, 0, s) == (here == Some(Piece { piece: 0, color: c as usize })));
        }
        assert(bit(board.pieces[c][1].0, s) == (here == Some(Piece { piece: 1, color: c as usize }))) by {
            assert(holds(board.pieces, c, 1, s) == (here == Some(Piece { piece: 1, color: c as usize })));
        }
        assert(bit(board.pieces[c][2].0, s) == (here == Some(Piece { piece: 2, color: c as usize }))) by {
            assert(holds(board.pieces, c, 2, s) == (here == Some(Piece { piece: 2, color: c as usize })));
        }
        assert(bit(board.pieces[c][3].0, s) == (here == Some(Piece { piece: 3, color: c as usize }))) by {
            assert(holds(board.pieces, c, 3, s) == (here == Some(Piece { piece: 3, color: c as usize })));
        }
        assert(bit(board.pieces[c][4].0, s) == (here == Some(Piece { piece: 4, color: c as usize }))) by {
            assert(holds(board.pieces, c, 4, s) == (here == Some(Piece { piece: 4, color: c as usize })));
        }
        assert(bit(board.pieces[c][5].0, s) == (here == Some(Piece { piece: 5, color: c as usize }))) by {
            assert(holds(board.pieces, c, 5, s) == (here == Some(Piece { piece: 5, color: c as usize })));
        }
        crate::moves::moves_calculation::lemma_piece_at_wf(&board, s);
    }
}

/// On a board whose parts agree, no square is on the boards of two kinds
/// of one colour.
pub proof fn lemma_kinds_disjoint(board: Board, c: int, p: int, q: int)
    requires
        board.wf(),
        0 <= c < 2,
        0 <= p < 6,
        0 <= q < 6,
        p != q,
    ensures
        board.pieces[c][p].0 & board.pieces[c][q].0 == 0,
{
    let both = board.pieces[c][p].0 & board.pieces[c][q].0;
    assert forall|s: int| 0 <= s < 64 implies !bit(both, s) by {
        crate::types::bits::lemma_bit_and(board.pieces[c][p].0, board.pieces[c][q].0, s);
        assert(holds(board.pieces, c, p, s) == (piece_at(board.pieces, s) == Some(
            Piece { piece: p as usize, color: c as usize },
        )));
        assert(holds(board.pieces, c, q, s) == (piece_at(board.pieces, s) == Some(
            Piece { piece: q as usize, color: c as usize },
        )));
    }
    crate::types::bits::lemma_no_bits_is_zero(both);
}

/// On a board whose parts agree, the boards of the kinds of a colour hold
/// together as many squares as the board of the colour.
pub proof fn lemma_kinds_count_up(board: Board, c: int)
    requires
        board.wf(),
        0 <= c < 2,
    ensures
        crate::types::bits::popcount(board.pieces[c][0].0) + crate::types::bits::popcount(
            board.pieces[c][1].0,
        ) + crate::types::bits::popcount(board.pieces[c][2].0) + crate::types::bits::popcount(
            board.pieces[c][3].0,
        ) + crate::types::bits::popcount(board.pieces[c][4].0) + crate::types::bits::popcount(
            board.pieces[c][5].0,
        ) == crate::types::bits::popcount(board.colors[c].0),
{
    lemma_kinds_counted(board, c, 64);
}

} // verus!
