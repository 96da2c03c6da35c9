//! Zobrist keys of positions, numbered as in the Polyglot book format.

use vstd::prelude::*;
use vstd::std_specs::ops::BitXorSpecImpl;
use std::ops::BitXor;
use crate::board::Board;
use crate::types::bits::lemma_xor_algebra;
use crate::types::piece::Color;
use crate::types::piece::Pieces;
use crate::types::square::Square;
use crate::moves::geometry::file_of;
use crate::moves::geometry::rank_of;
use crate::types::bitboard::BitBoard;
use crate::types::piece::Piece;
use crate::types::state::flag;
use crate::types::state::Castling;
use crate::types::state::State;
use crate::utils::polyglot_array::POLYGLOT_RAND_ARRAY;

verus! {

#[derive(Clone, Copy, Debug, PartialEq, Eq, Structural)]
pub struct ZobristHash(pub u64);

impl ZobristHash {
    pub fn new(value: u64) -> (h: Self)
        ensures
            h.0 == value,
    {
        Self(value)
    }

    pub fn get_value(&self) -> (v: u64)
        ensures
            v == self.0,
    {
        self.0
    }

    pub fn zero() -> (h: Self)
        ensures
            h.0 == 0,
    {
        Self(0)
    }
}

/// Where the Polyglot table keeps the kind `piece` of this crate: it
/// orders the kinds pawn, knight, bishop, rook, queen, king.
pub open spec fn polyglot_kind(piece: int) -> int {
    if piece == 0 {
        4
    } else if piece == 1 {
        3
    } else if piece == 2 {
        2
    } else if piece == 3 {
        1
    } else if piece == 4 {
        0
    } else {
        5
    }
}

/// The place in the table of the key of a piece of kind `piece` and colour
/// `color` on `square`. The table keeps black before white within a kind.
pub open spec fn piece_key_index(piece: int, color: int, square: int) -> int {
    64 * (2 * polyglot_kind(piece) + (1 - color)) + square
}

/// The key of what stands on `square`: that of the piece, nothing for an
/// empty square.
pub open spec fn square_key(keys: Seq<u64>, content: Option<Piece>, square: int) -> u64 {
    match content {
        Some(p) => keys[piece_key_index(p.piece as int, p.color as int, square)],
        None => 0,
    }
}

/// The keys of what stands on the lowest `n` squares, combined.
pub open spec fn hash_squares(keys: Seq<u64>, squares: Seq<Option<Piece>>, n: int) -> u64
    decreases n,
{
    if n <= 0 {
        0
    } else {
        hash_squares(keys, squares, n - 1) ^ square_key(keys, squares[n - 1], n - 1)
    }
}

/// The keys of the pieces, combined.
pub open spec fn spec_hash_board(keys: Seq<u64>, squares: Seq<Option<Piece>>) -> u64 {
    hash_squares(keys, squares, 64)
}

/// The key at `index` if `held`, else nothing.
pub open spec fn key_if(keys: Seq<u64>, held: bool, index: int) -> u64 {
    if held {
        keys[index]
    } else {
        0
    }
}

/// The keys of the castling rights held, combined.
pub open spec fn spec_hash_castling(keys: Seq<u64>, castling: Castling) -> u64 {
    key_if(keys, flag(castling.0, 0), 768) ^ key_if(keys, flag(castling.0, 1), 769) ^ key_if(
        keys,
        flag(castling.0, 2),
        770,
    ) ^ key_if(keys, flag(castling.0, 3), 771)
}

/// A pawn of `turn` stands where it could capture on `target`: beside the
/// square behind the target, as `turn` sees it.
pub open spec fn en_passant_capturable(squares: Seq<Option<Piece>>, target: int, turn: int) -> bool {
    let from_rank = if turn == 0 {
        rank_of(target) - 1
    } else {
        rank_of(target) + 1
    };
    let file = file_of(target);
    let pawn = Some(Piece { piece: 4, color: turn as usize });
    0 <= target < 64 && 0 <= from_rank < 8 && (file > 0 && squares[from_rank * 8 + file - 1] == pawn
        || file < 7 && squares[from_rank * 8 + file + 1] == pawn)
}

/// The key of the en-passant file, counted only when a pawn of `turn`
/// could make the capture.
pub open spec fn spec_hash_en_passant(
    keys: Seq<u64>,
    squares: Seq<Option<Piece>>,
    state: State,
    turn: int,
) -> u64 {
    match state.en_passant {
        Some(sq) => key_if(
            keys,
            en_passant_capturable(squares, sq.0 as int, turn),
            772 + file_of(sq.0 as int),
        ),
        None => 0,
    }
}

/// The key of the side to move, counted when white is to move.
pub open spec fn spec_hash_turn(keys: Seq<u64>, turn: int) -> u64 {
    key_if(keys, turn == 0, 780)
}

/// The Zobrist key of a position: the keys of its pieces, of its castling
/// rights, of its en-passant file and of the side to move, combined.
pub open spec fn spec_hash_everything(keys: Seq<u64>, squares: Seq<Option<Piece>>, state: State) -> u64 {
    spec_hash_board(keys, squares) ^ spec_hash_castling(keys, state.castling)
        ^ spec_hash_en_passant(keys, squares, state, state.turn as int) ^ spec_hash_turn(
        keys,
        state.turn as int,
    )
}

/// Changing what stands on square `s` takes the key of what stood there
/// out of the combined keys and puts the key of what stands there now in.
pub proof fn lemma_hash_squares_update(
    keys: Seq<u64>,
    squares: Seq<Option<Piece>>,
    s: int,
    content: Option<Piece>,
    n: int,
)
    requires
        0 <= s < squares.len(),
        0 <= n <= squares.len(),
    ensures
        hash_squares(keys, squares.update(s, content), n) == if s < n {
            hash_squares(keys, squares, n) ^ square_key(keys, squares[s], s) ^ square_key(
                keys,
                content,
                s,
            )
        } else {
            hash_squares(keys, squares, n)
        },
    decreases n,
{
    if n > 0 {
        lemma_hash_squares_update(keys, squares, s, content, n - 1);
        let before = hash_squares(keys, squares, n - 1);
        let old_key = square_key(keys, squares[s], s);
        let new_key = square_key(keys, content, s);
        if s == n - 1 {
            lemma_xor_algebra(before, old_key, new_key, 0);
        } else if s < n - 1 {
            lemma_xor_algebra(before, old_key, new_key, square_key(keys, squares[n - 1], n - 1));
        }
    }
}

impl BitXor for ZobristHash {
    type Output = ZobristHash;

    fn bitxor(self, rhs: ZobristHash) -> (h: ZobristHash) {
        ZobristHash(self.0 ^ rhs.0)
    }
}

impl BitXorSpecImpl for ZobristHash {
    open spec fn obeys_bitxor_spec() -> bool {
        true
    }

    open spec fn bitxor_req(self, rhs: ZobristHash) -> bool {
        true
    }

    open spec fn bitxor_spec(self, rhs: ZobristHash) -> ZobristHash {
        ZobristHash(self.0 ^ rhs.0)
    }
}

/// all info can be found here http://hgm.nubati.net/book_format.html
pub struct ZobristHasher {
    pub array: [u64; 781],
}

impl ZobristHasher {
    /// The keys, by their place in the table.
    pub open spec fn keys(&self) -> Seq<u64> {
        self.array@
    }

    /// The hasher over the Polyglot table.
    pub fn load() -> (h: Self)
        ensures
            h.array == POLYGLOT_RAND_ARRAY,
    {
        Self { array: POLYGLOT_RAND_ARRAY }
    }

    /// The key of a piece of kind `piece` and colour `color` on `square`.
    pub fn hash_piece_at_square(&self, piece: &usize, color: &usize, square: &Square) -> (h:
        ZobristHash)
        requires
            *piece < 6,
            *color < 2,
            square.on_board(),
        ensures
            h.0 == self.keys()[piece_key_index(*piece as int, *color as int, square.0 as int)],
            h.0 == square_key(
                self.keys(),
                Some(Piece { piece: *piece, color: *color }),
                square.0 as int,
            ),
    {
        let kind: usize = if *piece == Pieces::QUEEN {
            4
        } else if *piece == Pieces::ROOK {
            3
        } else if *piece == Pieces::BISHOP {
            2
        } else if *piece == Pieces::KNIGHT {
            1
        } else if *piece == Pieces::PAWN {
            0
        } else {
            5
        };
        ZobristHash(self.array[64 * (2 * kind + (1 - *color)) + square.as_usize()])
    }

    pub fn hash_castling_white_short(&self) -> (h: ZobristHash)
        ensures
            h.0 == self.keys()[768],
    {
        ZobristHash(self.array[768])
    }

    pub fn hash_castling_white_long(&self) -> (h: ZobristHash)
        ensures
            h.0 == self.keys()[769],
    {
        ZobristHash(self.array[769])
    }

    pub fn hash_castling_black_short(&self) -> (h: ZobristHash)
        ensures
            h.0 == self.keys()[770],
    {
        ZobristHash(self.array[770])
    }

    pub fn hash_castling_black_long(&self) -> (h: ZobristHash)
        ensures
            h.0 == self.keys()[771],
    {
        ZobristHash(self.array[771])
    }

    /// The keys of both castling rights of `color`, combined.
    pub fn hash_castling_color(&self, color: usize) -> (h: ZobristHash)
        requires
            color < 2,
        ensures
            h.0 == self.keys()[768 + 2 * color] ^ self.keys()[769 + 2 * color],
    {
        let i = 768 + (2 * color);
        ZobristHash(self.array[i] ^ self.array[i + 1])
    }

    /// The keys of the castling rights that `board` holds, combined.
    pub fn hash_castling(&self, board: &Board) -> (h: ZobristHash)
        ensures
            h.0 == spec_hash_castling(self.keys(), board.state.castling),
    {
        let mut zobrist_hash: u64 = 0;
        proof {
            lemma_xor_algebra(self.keys()[768], 0, 0, 0);
            lemma_xor_algebra(0, self.keys()[768], 0, 0);
        }
        if board.state.castling.white_short() {
            zobrist_hash = zobrist_hash ^ self.array[768];
        }
        assert(zobrist_hash == key_if(self.keys(), flag(board.state.castling.0, 0), 768));
        let a = zobrist_hash;
        if board.state.castling.white_long() {
            zobrist_hash = zobrist_hash ^ self.array[769];
        }
        proof {
            lemma_xor_algebra(a, 0, 0, 0);
        }
        let b = zobrist_hash;
        if board.state.castling.black_short() {
            zobrist_hash = zobrist_hash ^ self.array[770];
        }
        proof {
            lemma_xor_algebra(b, 0, 0, 0);
        }
        let c = zobrist_hash;
        if board.state.castling.black_long() {
            zobrist_hash = zobrist_hash ^ self.array[771];
        }
        proof {
            lemma_xor_algebra(c, 0, 0, 0);
        }
        ZobristHash(zobrist_hash)
    }

    /// Zobrist hashes en passant only if there is a pawn around that can possibly use it
    pub fn hash_en_passant(&self, board: &Board, turn: usize) -> (h: ZobristHash)
        requires
            board.pieces_ok(),
            turn < 2,
            board.state.en_passant matches Some(sq) ==> sq.on_board(),
        ensures
            h.0 == spec_hash_en_passant(self.keys(), board@.squares, board.state, turn as int),
    {
        if let Some(square) = board.state.en_passant {
            let mask = if turn == Color::WHITE {
                board.pieces[Color::WHITE][Pieces::PAWN].shift_up(1)
            } else {
                board.pieces[Color::BLACK][Pieces::PAWN].shift_down(1)
            };
            let left = mask.shift_left(1);
            let right = mask.shift_right(1);
            let either = BitBoard(left.0 | right.0);
            proof {
                let t = square.0 as int;
                crate::types::bits::lemma_bit_or(left.0, right.0, t);
                assert(either.has(t) == (left.has(t) || right.has(t)));
                assert(left.has(t) == (t % 8 + 1 < 8 && mask.has(t + 1)));
                assert(right.has(t) == (t % 8 >= 1 && mask.has(t - 1)));
                if turn == 0 {
                    assert(mask.has(t + 1) == (8 <= t + 1 < 64 && crate::board::holds(board.pieces, 0, 4, t + 1 - 8)));
                    assert(mask.has(t - 1) == (8 <= t - 1 < 64 && crate::board::holds(board.pieces, 0, 4, t - 1 - 8)));
                } else {
                    assert(mask.has(t + 1) == (0 <= t + 1 && t + 1 + 8 < 64 && crate::board::holds(board.pieces, 
                        1,
                        4,
                        t + 1 + 8,
                    )));
                    assert(mask.has(t - 1) == (0 <= t - 1 && t - 1 + 8 < 64 && crate::board::holds(board.pieces, 
                        1,
                        4,
                        t - 1 + 8,
                    )));
                }
                assert(either.has(t) == en_passant_capturable(board@.squares, t, turn as int));
            }
            if either.read_square(&square) {
                return ZobristHash(self.array[772 + square.get_file() as usize]);
            }
        }
        ZobristHash::new(0)
    }

    /// The key of the side to move of `board`.
    pub fn hash_turn(&self, board: &Board) -> (h: ZobristHash)
        ensures
            h.0 == spec_hash_turn(self.keys(), board.state.turn as int),
    {
        if board.state.turn == Color::WHITE {
            ZobristHash(self.array[780])
        } else {
            ZobristHash::new(0)
        }
    }

    /// The key that flips the side to move.
    pub fn turn_hash(&self) -> (h: ZobristHash)
        ensures
            h.0 == self.keys()[780],
    {
        ZobristHash(self.array[780])
    }

    /// The keys of the pieces of `board`, combined.
    pub fn hash_board(&self, board: &Board) -> (h: ZobristHash)
        requires
            board.pieces_ok(),
        ensures
            h.0 == spec_hash_board(self.keys(), board@.squares),
    {
        let mut zobrist_hash: u64 = 0;
        let mut i: u8 = 0;
        while i < 64
            invariant
                board.pieces_ok(),
                i <= 64,
                zobrist_hash == hash_squares(self.keys(), board@.squares, i as int),
            decreases 64 - i,
        {
            let square = Square::new(i);
            match board.get_piece_on_square(&square) {
                Some(piece) => {
                    let key = self.hash_piece_at_square(&piece.piece, &piece.color, &square);
                    zobrist_hash = zobrist_hash ^ key.0;
                },
                None => {
                    proof {
                        lemma_xor_algebra(zobrist_hash, 0, 0, 0);
                    }
                },
            }
            i = i + 1;
        }
        ZobristHash(zobrist_hash)
    }

    /// The Zobrist key of `board`.
    pub fn hash_everyting(&self, board: &Board) -> (h: ZobristHash)
        requires
            board.pieces_ok(),
            board.state.turn < 2,
            board.state.en_passant matches Some(sq) ==> sq.on_board(),
        ensures
            h.0 == spec_hash_everything(self.keys(), board@.squares, board.state),
    {
        ZobristHash(
            self.hash_board(board).0 ^ self.hash_castling(board).0 ^ self.hash_en_passant(
                board,
                board.state.turn,
            ).0 ^ self.hash_turn(board).0,
        )
    }
}

} // verus!
