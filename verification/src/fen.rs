//! Forsyth-Edwards Notation: a position as one line of six fields that
//! single spaces separate. The fields are the placement of the pieces (eight
//! ranks from the eighth down, joined by `/`, each a run of piece letters and
//! of digits 1 to 8 that count empty squares and fill the rank exactly), the
//! side to move (`w` or `b`), the castling rights (`-`, or letters of `KQkq`),
//! the en-passant target (`-` or a square), the half-move clock and the
//! full-move number.

use vstd::prelude::*;
use crate::board::Board;
use crate::moves::geometry::rank_of;
use crate::position::castling_consistent;
use crate::position::castling_of_flags;
use crate::position::en_passant_consistent;
use crate::position::is_pawn;
use crate::position::Position;
use crate::types::piece::piece_from_letter;
use crate::types::piece::piece_letter;
use crate::types::piece::Piece;
use crate::types::square::square_from_name;
use crate::types::square::square_name;
use crate::types::square::Square;
use crate::types::state::flag;
use crate::types::state::Castling;
use crate::types::state::State;
use crate::utils::text::split_on;
use crate::utils::text::split;
use crate::utils::text::texts;
use crate::utils::text::text_is;
use crate::utils::text::chars_of;
use crate::utils::text::string_of;
use crate::utils::text::trim_str;
use crate::utils::text::spec_trim;
use crate::utils::zobrist::ZobristHasher;
use crate::types::bitboard::BitBoard;
use crate::types::piece::Pieces;
use crate::types::state::lemma_flags_of_value;
use crate::types::state::lemma_flag_ext;

verus! {

/// Why a text is not a position in Forsyth-Edwards Notation.
#[derive(Clone, Copy, Debug, PartialEq, Eq, Structural)]
pub enum FenError {
    /// There are not six fields.
    FieldCount,
    /// The placement has not eight ranks, or a rank has a character that is
    /// neither a piece letter nor a digit 1 to 8, or does not fill eight
    /// squares.
    Placement,
    /// The side to move is neither `w` nor `b`.
    SideToMove,
    /// The castling rights are neither `-` nor letters of `KQkq`.
    Castling,
    /// The en-passant target is neither `-` nor a square.
    EnPassant,
    /// The half-move clock is not a number up to 255.
    HalfMoves,
    /// The full-move number is not a number up to 65535.
    FullMoves,
}

/// The character of the digit `d`.
pub open spec fn digit_char(d: int) -> char
    recommends
        0 <= d < 10,
{
    ((48 + d) as u8) as char
}

pub open spec fn is_digit(c: char) -> bool {
    '0' <= c <= '9'
}

/// The digit that `c` is.
pub open spec fn digit_value(c: char) -> int {
    c as int - 48
}

/// `n` in decimal digits, without leading zeros.
pub open spec fn decimal_text(n: nat) -> Seq<char>
    decreases n,
{
    if n < 10 {
        seq![digit_char(n as int)]
    } else {
        decimal_text(n / 10).push(digit_char((n % 10) as int))
    }
}

/// The number that the decimal digits `text` stand for.
pub open spec fn decimal_value(text: Seq<char>) -> int
    decreases text.len(),
{
    if text.len() == 0 {
        0
    } else {
        decimal_value(text.drop_last()) * 10 + digit_value(text.last())
    }
}

pub open spec fn all_digits(text: Seq<char>) -> bool {
    forall|i: int| 0 <= i < text.len() ==> is_digit(#[trigger] text[i])
}

/// The number that `text` stands for, if it is one or more decimal digits
/// and the number is at most `limit`.
pub open spec fn parse_number(text: Seq<char>, limit: int) -> Option<int> {
    if text.len() > 0 && all_digits(text) && decimal_value(text) <= limit {
        Some(decimal_value(text))
    } else {
        None
    }
}

/// `k` empty squares.
pub open spec fn empties(k: int) -> Seq<Option<Piece>> {
    Seq::new(k as nat, |j: int| None::<Piece>)
}

/// The squares of a rank whose text from `i` on is still to be read, `row`
/// being what was read before: a digit 1 to 8 adds that many empty squares,
/// a piece letter one piece, the squares may not go beyond eight and must be
/// eight at the end.
pub open spec fn parse_rank_from(text: Seq<char>, i: int, row: Seq<Option<Piece>>) -> Option<
    Seq<Option<Piece>>,
>
    decreases text.len() - i,
{
    if i >= text.len() {
        if row.len() == 8 {
            Some(row)
        } else {
            None
        }
    } else if '1' <= text[i] <= '8' {
        if row.len() + digit_value(text[i]) <= 8 {
            parse_rank_from(text, i + 1, row + empties(digit_value(text[i])))
        } else {
            None
        }
    } else {
        match piece_from_letter(text[i]) {
            Some((piece, color)) => if row.len() < 8 {
                parse_rank_from(
                    text,
                    i + 1,
                    row.push(Some(Piece { piece: piece as usize, color: color as usize })),
                )
            } else {
                None
            },
            None => None,
        }
    }
}

/// The eight squares of the rank `text`, from the a-file.
pub open spec fn parse_rank(text: Seq<char>) -> Option<Seq<Option<Piece>>> {
    parse_rank_from(text, 0, Seq::empty())
}

/// The 64 squares of the placement `text`.
pub open spec fn parse_placement(text: Seq<char>) -> Option<Seq<Option<Piece>>> {
    let ranks = split_on(text, '/');
    if ranks.len() == 8 && (forall|r: int| 0 <= r < 8 ==> (#[trigger] parse_rank(ranks[r])).is_some()) {
        Some(Seq::new(64, |s: int| parse_rank(ranks[7 - s / 8]).unwrap()[s % 8]))
    } else {
        None
    }
}

pub open spec fn parse_turn(text: Seq<char>) -> Option<usize> {
    if text == seq!['w'] {
        Some(0usize)
    } else if text == seq!['b'] {
        Some(1usize)
    } else {
        None
    }
}

pub open spec fn is_castling_letter(c: char) -> bool {
    c == 'K' || c == 'Q' || c == 'k' || c == 'q'
}

/// The castling rights `text`: none for `-`, else those whose letters
/// occur, in any order.
pub open spec fn parse_castling(text: Seq<char>) -> Option<Castling> {
    if text == seq!['-'] {
        Some(Castling(0))
    } else if text.len() > 0 && (forall|i: int|
        0 <= i < text.len() ==> is_castling_letter(#[trigger] text[i])) {
        Some(
            castling_of_flags(
                text.contains('K'),
                text.contains('Q'),
                text.contains('k'),
                text.contains('q'),
            ),
        )
    } else {
        None
    }
}

pub open spec fn parse_en_passant(text: Seq<char>) -> Option<Option<Square>> {
    if text == seq!['-'] {
        Some(None)
    } else {
        match square_from_name(text) {
            Some(sq) => Some(Some(Square(sq as u8))),
            None => None,
        }
    }
}

/// The pieces and the state fit together: no pawn stands on the first or
/// the eighth rank, each castling right held has its king and rook at home,
/// and the en-passant target, if there is one, is a square that a pawn has
/// just passed. A text can be well formed field by field and still stand for
/// pieces and a state that do not fit together.
pub open spec fn fits_together(squares: Seq<Option<Piece>>, state: State) -> bool {
    &&& forall|s: int| 0 <= s < 64 && is_pawn(#[trigger] squares[s]) ==> 1 <= rank_of(s) <= 6
    &&& en_passant_consistent(squares, state)
    &&& castling_consistent(squares, state.castling)
}

/// The pieces and the state that `text` stands for, or why it stands for
/// none. The fields are looked at in their order and the first that is
/// malformed names the error; a text of six well-formed fields stands for
/// pieces and a state, whether or not they fit together.
pub open spec fn spec_parse_fen(text: Seq<char>) -> Result<(Seq<Option<Piece>>, State), FenError> {
    let fields = split_on(text, ' ');
    if fields.len() != 6 {
        Err(FenError::FieldCount)
    } else if parse_placement(fields[0]).is_none() {
        Err(FenError::Placement)
    } else if parse_turn(fields[1]).is_none() {
        Err(FenError::SideToMove)
    } else if parse_castling(fields[2]).is_none() {
        Err(FenError::Castling)
    } else if parse_en_passant(fields[3]).is_none() {
        Err(FenError::EnPassant)
    } else if parse_number(fields[4], 255).is_none() {
        Err(FenError::HalfMoves)
    } else if parse_number(fields[5], 65535).is_none() {
        Err(FenError::FullMoves)
    } else {
        let turn = parse_turn(fields[1]).unwrap();
        Ok(
            (
                parse_placement(fields[0]).unwrap(),
                State {
                    castling: parse_castling(fields[2]).unwrap(),
                    en_passant: parse_en_passant(fields[3]).unwrap(),
                    half_moves: parse_number(fields[4], 255).unwrap() as u8,
                    full_moves: parse_number(fields[5], 65535).unwrap() as u16,
                    turn,
                    opponent: (1 - turn) as usize,
                },
            ),
        )
    }
}

/// What is left to write of rank `rank` from file `file` on, after `run`
/// empty squares not yet written: runs of empty squares as their length,
/// pieces as their letters.
pub open spec fn rank_text(squares: Seq<Option<Piece>>, rank: int, file: int, run: int) -> Seq<char>
    decreases 8 - file,
{
    let pending = if run > 0 {
        seq![digit_char(run)]
    } else {
        Seq::<char>::empty()
    };
    if file >= 8 {
        pending
    } else {
        match squares[rank * 8 + file] {
            Some(p) => pending + seq![piece_letter(p.piece as int, p.color as int)] + rank_text(
                squares,
                rank,
                file + 1,
                0,
            ),
            None => rank_text(squares, rank, file + 1, run + 1),
        }
    }
}

/// The ranks from `rank` down to the first, joined by `/`.
pub open spec fn ranks_text(squares: Seq<Option<Piece>>, rank: int) -> Seq<char>
    decreases rank,
{
    if rank <= 0 {
        rank_text(squares, 0, 0, 0)
    } else {
        rank_text(squares, rank, 0, 0) + seq!['/'] + ranks_text(squares, rank - 1)
    }
}

pub open spec fn turn_text(turn: usize) -> Seq<char> {
    if turn == 0 {
        seq!['w']
    } else {
        seq!['b']
    }
}

/// The letters of the rights held, in the order `KQkq`, or `-` for none.
pub open spec fn castling_text(castling: Castling) -> Seq<char> {
    let c = castling.0;
    let letters = (if flag(c, 0) {
        seq!['K']
    } else {
        Seq::<char>::empty()
    }) + (if flag(c, 1) {
        seq!['Q']
    } else {
        Seq::<char>::empty()
    }) + (if flag(c, 2) {
        seq!['k']
    } else {
        Seq::<char>::empty()
    }) + (if flag(c, 3) {
        seq!['q']
    } else {
        Seq::<char>::empty()
    });
    if castling.0 == 0 {
        seq!['-']
    } else {
        letters
    }
}

pub open spec fn en_passant_text(en_passant: Option<Square>) -> Seq<char> {
    match en_passant {
        Some(sq) => square_name(sq.0 as int),
        None => seq!['-'],
    }
}

/// The position in Forsyth-Edwards Notation.
pub open spec fn spec_fen(squares: Seq<Option<Piece>>, state: State) -> Seq<char> {
    ranks_text(squares, 7) + seq![' '] + turn_text(state.turn) + seq![' '] + castling_text(
        state.castling,
    ) + seq![' '] + en_passant_text(state.en_passant) + seq![' '] + decimal_text(
        state.half_moves as nat,
    ) + seq![' '] + decimal_text(state.full_moves as nat)
}

/// A number that has passed the limit stays past it whatever digits
/// follow.
proof fn lemma_decimal_value_grows(text: Seq<char>, i: int)
    requires
        0 <= i <= text.len(),
        all_digits(text),
    ensures
        decimal_value(text.subrange(0, i)) <= decimal_value(text),
        0 <= decimal_value(text.subrange(0, i)),
    decreases text.len() - i,
{
    lemma_decimal_value_nonneg(text.subrange(0, i));
    if i < text.len() {
        lemma_decimal_value_grows(text, i + 1);
        let longer = text.subrange(0, i + 1);
        assert(longer.drop_last() =~= text.subrange(0, i));
        assert(is_digit(text[i]));
        assert(longer.last() == text[i]);
    } else {
        assert(text.subrange(0, i) =~= text);
    }
}

proof fn lemma_decimal_value_nonneg(text: Seq<char>)
    requires
        all_digits(text),
    ensures
        0 <= decimal_value(text),
    decreases text.len(),
{
    if text.len() > 0 {
        assert(is_digit(text.last()));
        assert forall|i: int| 0 <= i < text.drop_last().len() implies is_digit(
            #[trigger] text.drop_last()[i],
        ) by {
            assert(text.drop_last()[i] == text[i]);
        }
        lemma_decimal_value_nonneg(text.drop_last());
    }
}

/// The number that `text` stands for, if it is one up to `limit`.
pub fn parse_number_text(text: &Vec<char>, limit: u32) -> (r: Option<u32>)
    ensures
        match parse_number(text@, limit as int) {
            Some(n) => r == Some(n as u32) && 0 <= n <= limit,
            None => r.is_none(),
        },
{
    if text.len() == 0 {
        return None;
    }
    let mut value: u64 = 0;
    let mut i: usize = 0;
    proof {
        assert(text@.subrange(0, 0) =~= Seq::<char>::empty());
    }
    while i < text.len()
        invariant
            i <= text.len(),
            forall|j: int| 0 <= j < i ==> is_digit(#[trigger] text@[j]),
            value == decimal_value(text@.subrange(0, i as int)),
            value <= limit,
        decreases text.len() - i,
    {
        let c = text[i];
        if c < '0' || c > '9' {
            return None;
        }
        let digit = (c as u32 - 48) as u64;
        proof {
            let longer = text@.subrange(0, i + 1);
            assert(longer.drop_last() =~= text@.subrange(0, i as int));
            assert(longer.last() == c);
        }
        value = value * 10 + digit;
        if value > limit as u64 {
            proof {
                if all_digits(text@) {
                    lemma_decimal_value_grows(text@, i + 1);
                }
            }
            return None;
        }
        i = i + 1;
    }
    proof {
        assert(text@.subrange(0, i as int) =~= text@);
    }
    Some(value as u32)
}

/// The eight squares of the rank `text`.
pub fn parse_rank_text(text: &Vec<char>) -> (r: Option<Vec<Option<Piece>>>)
    ensures
        match parse_rank(text@) {
            Some(row) => r matches Some(v) && v@ == row && row.len() == 8,
            None => r.is_none(),
        },
        r matches Some(v) ==> forall|k: int| 0 <= k < 8 ==> ((#[trigger] v[k]) matches Some(p) ==> p.wf()),
{
    let mut row: Vec<Option<Piece>> = Vec::with_capacity(8);
    let mut i: usize = 0;
    while i < text.len()
        invariant
            i <= text.len(),
            row.len() <= 8,
            forall|k: int| 0 <= k < row.len() ==> ((#[trigger] row[k]) matches Some(p) ==> p.wf()),
            parse_rank_from(text@, i as int, row@) == parse_rank(text@),
        decreases text.len() - i,
    {
        let c = text[i];
        if c >= '1' && c <= '8' {
            let n_empty_spaces = (c as u32 - 48) as usize;
            if row.len() + n_empty_spaces > 8 {
                return None;
            }
            let ghost before = row@;
            let mut k: usize = 0;
            while k < n_empty_spaces
                invariant
                    k <= n_empty_spaces,
                    before.len() + n_empty_spaces <= 8,
                    row@ == before + empties(k as int),
                    forall|k: int|
                        0 <= k < row.len() ==> ((#[trigger] row[k]) matches Some(p) ==> p.wf()),
                decreases n_empty_spaces - k,
            {
                row.push(None);
                proof {
                    assert(row@ =~= before + empties(k + 1));
                }
                k = k + 1;
            }
        } else {
            match Piece::from_char(c) {
                Some(piece) => {
                    if row.len() >= 8 {
                        return None;
                    }
                    row.push(Some(piece));
                },
                None => {
                    return None;
                },
            }
        }
        i = i + 1;
    }
    if row.len() == 8 {
        Some(row)
    } else {
        None
    }
}

/// The side to move that `text` names.
pub fn parse_turn_text(text: &Vec<char>) -> (r: Option<usize>)
    ensures
        r == parse_turn(text@),
{
    if text_is(text, 'w') {
        Some(0)
    } else if text_is(text, 'b') {
        Some(1)
    } else {
        None
    }
}

/// The castling rights that `text` names.
pub fn parse_castling_text(text: &Vec<char>) -> (r: Option<Castling>)
    ensures
        r == parse_castling(text@),
        r matches Some(c) ==> c.wf(),
{
    if text_is(text, '-') {
        return Some(Castling::new());
    }
    if text.len() == 0 {
        return None;
    }
    let mut castling = Castling::new();
    let mut i: usize = 0;
    while i < text.len()
        invariant
            i <= text.len(),
            text@ != seq!['-'],
            castling.wf(),
            forall|j: int| 0 <= j < i ==> is_castling_letter(#[trigger] text@[j]),
            flag(castling.0, 0) == text@.subrange(0, i as int).contains('K'),
            flag(castling.0, 1) == text@.subrange(0, i as int).contains('Q'),
            flag(castling.0, 2) == text@.subrange(0, i as int).contains('k'),
            flag(castling.0, 3) == text@.subrange(0, i as int).contains('q'),
        decreases text.len() - i,
    {
        let c = text[i];
        proof {
            let shorter = text@.subrange(0, i as int);
            let longer = text@.subrange(0, i + 1);
            assert(longer =~= shorter.push(c));
            assert forall|x: char| longer.contains(x) == (shorter.contains(x) || x == c) by {
                if longer.contains(x) {
                    let j = choose|j: int| 0 <= j < longer.len() && longer[j] == x;
                    if j < i {
                        assert(shorter[j] == x);
                    }
                }
                if shorter.contains(x) {
                    let j = choose|j: int| 0 <= j < shorter.len() && shorter[j] == x;
                    assert(longer[j] == x);
                }
                if x == c {
                    assert(longer[i as int] == x);
                }
            }
        }
        if c == 'Q' {
            castling.set_white_long();
        } else if c == 'K' {
            castling.set_white_short();
        } else if c == 'q' {
            castling.set_black_long();
        } else if c == 'k' {
            castling.set_black_short();
        } else {
            return None;
        }
        i = i + 1;
    }
    proof {
        assert(text@.subrange(0, i as int) =~= text@);
        lemma_flags_of_value(
            text@.contains('K'),
            text@.contains('Q'),
            text@.contains('k'),
            text@.contains('q'),
        );
        lemma_flag_ext(
            castling.0,
            castling_of_flags(
                text@.contains('K'),
                text@.contains('Q'),
                text@.contains('k'),
                text@.contains('q'),
            ).0,
        );
    }
    Some(castling)
}

/// The en-passant target that `text` names.
pub fn parse_en_passant_text(text: &Vec<char>) -> (r: Option<Option<Square>>)
    ensures
        r == parse_en_passant(text@),
        r matches Some(Some(sq)) ==> sq.on_board(),
{
    if text_is(text, '-') {
        return Some(None);
    }
    match Square::from_name(text.as_slice()) {
        Some(square) => Some(Some(square)),
        None => None,
    }
}

/// Appends `n` in decimal digits to `out`.
pub fn push_decimal(out: &mut Vec<char>, n: u16)
    ensures
        final(out)@ == old(out)@ + decimal_text(n as nat),
    decreases n,
{
    if n >= 10 {
        push_decimal(out, n / 10);
    }
    let digit: u8 = 48 + (n % 10) as u8;
    out.push(digit as char);
    proof {
        if n >= 10 {
            assert(out@ =~= old(out)@ + decimal_text(n as nat));
        } else {
            assert(out@ =~= old(out)@ + decimal_text(n as nat));
        }
    }
}

/// Appends `n` in decimal digits to `out`.
pub fn push_count(out: &mut Vec<char>, n: u64)
    ensures
        final(out)@ == old(out)@ + decimal_text(n as nat),
    decreases n,
{
    if n >= 10 {
        push_count(out, n / 10);
    }
    let digit: u8 = 48 + (n % 10) as u8;
    out.push(digit as char);
    proof {
        assert(out@ =~= old(out)@ + decimal_text(n as nat));
    }
}

/// `n` in decimal digits, behind a minus sign if it is negative.
pub open spec fn signed_text(n: int) -> Seq<char> {
    if n < 0 {
        seq!['-'] + decimal_text((-n) as nat)
    } else {
        decimal_text(n as nat)
    }
}

/// Appends `n` in decimal digits to `out`, behind a minus sign if it is
/// negative.
pub fn push_signed(out: &mut Vec<char>, n: i32)
    ensures
        final(out)@ == old(out)@ + signed_text(n as int),
{
    if n < 0 {
        out.push('-');
        push_count(out, (-(n as i64)) as u64);
        proof {
            assert(out@ =~= old(out)@ + signed_text(n as int));
        }
    } else {
        push_count(out, n as u64);
    }
}

proof fn raw_edge_ranks(i: u64)
    by (bit_vector)
    requires
        i < 64,
    ensures
        ((0xff000000000000ffu64 >> i) & 1 == 1) == (i / 8 == 0 || i / 8 == 7),
{
}

/// Whether the pieces and the state of `board` fit together.
fn fits(board: &Board) -> (r: bool)
    requires
        board.pieces_ok(),
        board.state.turn < 2,
        board.state.en_passant matches Some(sq) ==> sq.on_board(),
    ensures
        r == fits_together(board@.squares, board.state),
{
    let ghost squares = board@.squares;
    let pawns = BitBoard(board.pieces[0][Pieces::PAWN].0 | board.pieces[1][Pieces::PAWN].0);
    let edge = BitBoard(pawns.0 & 0xff000000000000ffu64);
    let pawns_fit = edge.is_empty();
    proof {
        assert forall|s: int| 0 <= s < 64 implies edge.has(s) == (is_pawn(squares[s]) && !(1
            <= rank_of(s) <= 6)) by {
            crate::types::bits::lemma_bit_and(pawns.0, 0xff000000000000ffu64, s);
            crate::types::bits::lemma_bit_or(board.pieces[0][4].0, board.pieces[1][4].0, s);
            raw_edge_ranks(s as u64);
            assert(crate::board::holds(board.pieces, 0, 4, s) == (crate::board::piece_at(
                board.pieces,
                s,
            ) == Some(Piece { piece: 4, color: 0 })));
            assert(crate::board::holds(board.pieces, 1, 4, s) == (crate::board::piece_at(
                board.pieces,
                s,
            ) == Some(Piece { piece: 4, color: 1 })));
            crate::moves::moves_calculation::lemma_piece_at_wf(board, s);
        }
        if pawns_fit {
            assert forall|s: int| 0 <= s < 64 && is_pawn(#[trigger] squares[s]) implies 1 <= rank_of(s)
                <= 6 by {
                assert(!edge.has(s));
            }
        } else {
            let s = choose|s: int| edge.has(s);
            assert(0 <= s < 64);
            assert(is_pawn(squares[s]) && !(1 <= rank_of(s) <= 6));
        }
    }
    let target_fits = match board.state.en_passant {
        None => true,
        Some(target) => {
            let rank = target.get_rank();
            if board.state.turn == 0 {
                rank == 5 && board.get_piece_on_square(&target).is_none() && holds_piece(
                    board,
                    &Square::new(target.as_u8() - 8),
                    Pieces::PAWN,
                    1,
                )
            } else {
                rank == 2 && board.get_piece_on_square(&target).is_none() && holds_piece(
                    board,
                    &Square::new(target.as_u8() + 8),
                    Pieces::PAWN,
                    0,
                )
            }
        },
    };
    let rights_fit = (!board.state.castling.white_short() || home_pair_of(board, 0, false)) && (
    !board.state.castling.white_long() || home_pair_of(board, 0, true)) && (
    !board.state.castling.black_short() || home_pair_of(board, 1, false)) && (
    !board.state.castling.black_long() || home_pair_of(board, 1, true));
    pawns_fit && target_fits && rights_fit
}

/// Whether a piece of kind `piece` and colour `color` stands on `square`.
fn holds_piece(board: &Board, square: &Square, piece: usize, color: usize) -> (r: bool)
    requires
        board.pieces_ok(),
        square.on_board(),
        piece < 6,
        color < 2,
    ensures
        r == (board@.squares[square.0 as int] == Some(Piece { piece, color })),
{
    proof {
        assert(crate::board::holds(board.pieces, color as int, piece as int, square.0 as int) == (
        crate::board::piece_at(board.pieces, square.0 as int) == Some(Piece { piece, color })));
    }
    board.pieces[color][piece].read_square(square)
}

/// Whether the king of `color` and its rook of the long or short side
/// stand at home.
fn home_pair_of(board: &Board, color: usize, long: bool) -> (r: bool)
    requires
        board.pieces_ok(),
        color < 2,
    ensures
        r == crate::position::home_pair(board@.squares, color as int, long),
{
    let rank: u8 = if color == 0 {
        0
    } else {
        7
    };
    let rook_file: u8 = if long {
        0
    } else {
        7
    };
    holds_piece(board, &Square::new(rank * 8 + 4), Pieces::KING, color) && holds_piece(
        board,
        &Square::new(rank * 8 + rook_file),
        Pieces::ROOK,
        color,
    )
}

/// What `rows`, the eighth rank first, hold for square `t`.
pub open spec fn cell(rows: Seq<Vec<Option<Piece>>>, t: int) -> Option<Piece> {
    rows[7 - t / 8]@[t % 8]
}

/// `rows` are eight rows of eight squares, each empty or with a piece of a
/// real kind and colour.
pub open spec fn rows_ok(rows: Seq<Vec<Option<Piece>>>) -> bool {
    &&& rows.len() == 8
    &&& forall|i: int| 0 <= i < 8 ==> (#[trigger] rows[i])@.len() == 8
    &&& forall|t: int| 0 <= t < 64 ==> ((#[trigger] cell(rows, t)) matches Some(p) ==> p.wf())
}

/// The rows of the placement `text`, the eighth rank first.
fn parse_placement_text(text: &Vec<char>) -> (r: Option<Vec<Vec<Option<Piece>>>>)
    ensures
        match parse_placement(text@) {
            Some(squares) => r matches Some(rows) && rows_ok(rows@) && forall|t: int|
                0 <= t < 64 ==> #[trigger] squares[t] == cell(rows@, t),
            None => r.is_none(),
        },
{
    let board_string_parts = split(text, '/');
    let ghost ranks = split_on(text@, '/');
    if board_string_parts.len() != 8 {
        return None;
    }
    proof {
        assert forall|i: int| 0 <= i < 8 implies board_string_parts[i]@ == ranks[i] by {
            assert(texts(board_string_parts@)[i] == board_string_parts[i]@);
        }
    }
    let mut rows: Vec<Vec<Option<Piece>>> = Vec::with_capacity(8);
    let mut r: usize = 0;
    while r < 8
        invariant
            r <= 8,
            rows.len() == r,
            ranks == split_on(text@, '/'),
            ranks.len() == 8,
            board_string_parts.len() == 8,
            forall|i: int| 0 <= i < 8 ==> board_string_parts[i]@ == ranks[i],
            forall|i: int|
                0 <= i < r ==> parse_rank(ranks[i]) == Some((#[trigger] rows[i])@) && rows[i]@.len()
                    == 8 && forall|k: int|
                    0 <= k < 8 ==> ((#[trigger] rows[i][k]) matches Some(p) ==> p.wf()),
        decreases 8 - r,
    {
        match parse_rank_text(&board_string_parts[r]) {
            Some(row) => {
                rows.push(row);
            },
            None => {
                proof {
                    assert(parse_rank(ranks[r as int]).is_none());
                }
                return None;
            },
        }
        r = r + 1;
    }
    proof {
        assert forall|i: int| 0 <= i < 8 implies (#[trigger] parse_rank(ranks[i])).is_some() by {
            assert(parse_rank(ranks[i]) == Some(rows[i]@));
        }
        let squares = parse_placement(text@).unwrap();
        assert forall|t: int| 0 <= t < 64 implies #[trigger] squares[t] == cell(rows@, t) by {
            let i = 7 - t / 8;
            assert(parse_rank(ranks[i]) == Some(rows[i]@));
        }
        assert forall|t: int| 0 <= t < 64 implies ((#[trigger] cell(rows@, t)) matches Some(p)
            ==> p.wf()) by {
            let i = 7 - t / 8;
            assert(parse_rank(ranks[i]) == Some(rows[i]@));
            assert(rows[i][t % 8] matches Some(p) ==> p.wf());
        }
        assert forall|i: int| 0 <= i < 8 implies (#[trigger] rows@[i])@.len() == 8 by {
            assert(parse_rank(ranks[i]) == Some(rows[i]@));
        }
    }
    Some(rows)
}

/// The board with the pieces of `rows`, the eighth rank first, and nothing
/// else set.
fn board_of_rows(rows: &Vec<Vec<Option<Piece>>>) -> (board: Board)
    requires
        rows_ok(rows@),
    ensures
        board.pieces_ok(),
        board.zobrist.0 == 0,
        board.position_history@.len() == 0,
        forall|t: int| 0 <= t < 64 ==> #[trigger] board@.squares[t] == cell(rows@, t),
{
    let mut board = Board::empty();
    let mut s: u8 = 0;
    while s < 64
        invariant
            s <= 64,
            rows_ok(rows@),
            board.pieces_ok(),
            board.zobrist.0 == 0,
            board.position_history@.len() == 0,
            forall|t: int|
                0 <= t < 64 ==> #[trigger] board@.squares[t] == (if t < s {
                    cell(rows@, t)
                } else {
                    None
                }),
        decreases 64 - s,
    {
        let rank = (s / 8) as usize;
        let file = (s % 8) as usize;
        proof {
            assert(rows@[7 - rank as int]@.len() == 8);
            assert(cell(rows@, s as int) matches Some(p) ==> p.wf());
        }
        match rows[7 - rank][file] {
            Some(piece) => {
                board.place_piece(&Square::new(s), piece.piece, piece.color);
            },
            None => {},
        }
        s = s + 1;
    }
    board
}

impl Board {
    /// The position that `fen` stands for once the white space around it
    /// is taken off, with its key as the only key of the history. Every text
    /// of six well-formed fields gives a board; the board is well formed
    /// exactly when its pieces and its state fit together, which
    /// `is_well_formed` tests.
    pub fn from_fen(fen: &str, hasher: &ZobristHasher) -> (r: Result<Self, FenError>)
        ensures
            match spec_parse_fen(spec_trim(fen@)) {
                Ok((squares, state)) => r matches Ok(board) && board@.squares == squares
                    && board.state == state && board.pieces_ok() && board.synced() && board.hash_ok(
                    hasher,
                ) && board@.history == seq![board.zobrist] && board.wf() == fits_together(
                    squares,
                    state,
                ),
                Err(e) => r == Err::<Self, FenError>(e),
            },
    {
        let chars = chars_of(trim_str(fen));
        Board::from_fen_chars(&chars, hasher)
    }

    /// The position that the characters `fen` stand for, with its key as
    /// the only key of the history.
    pub fn from_fen_chars(fen: &Vec<char>, hasher: &ZobristHasher) -> (r: Result<Self, FenError>)
        ensures
            match spec_parse_fen(fen@) {
                Ok((squares, state)) => r matches Ok(board) && board@.squares == squares
                    && board.state == state && board.pieces_ok() && board.synced() && board.hash_ok(
                    hasher,
                ) && board@.history == seq![board.zobrist] && board.wf() == fits_together(
                    squares,
                    state,
                ),
                Err(e) => r == Err::<Self, FenError>(e),
            },
    {
        let fen_parts = split(fen, ' ');
        let ghost fields = split_on(fen@, ' ');
        if fen_parts.len() != 6 {
            return Err(FenError::FieldCount);
        }
        proof {
            assert forall|i: int| 0 <= i < 6 implies fen_parts[i]@ == fields[i] by {
                assert(texts(fen_parts@)[i] == fen_parts[i]@);
            }
        }
        let rows = match parse_placement_text(&fen_parts[0]) {
            Some(rows) => rows,
            None => {
                return Err(FenError::Placement);
            },
        };
        let ghost squares = parse_placement(fields[0]).unwrap();
        let turn = match parse_turn_text(&fen_parts[1]) {
            Some(turn) => turn,
            None => {
                return Err(FenError::SideToMove);
            },
        };
        let castling = match parse_castling_text(&fen_parts[2]) {
            Some(castling) => castling,
            None => {
                return Err(FenError::Castling);
            },
        };
        let en_passant = match parse_en_passant_text(&fen_parts[3]) {
            Some(en_passant) => en_passant,
            None => {
                return Err(FenError::EnPassant);
            },
        };
        let half_moves = match parse_number_text(&fen_parts[4], 255) {
            Some(x) => x as u8,
            None => {
                return Err(FenError::HalfMoves);
            },
        };
        let full_moves = match parse_number_text(&fen_parts[5], 65535) {
            Some(x) => x as u16,
            None => {
                return Err(FenError::FullMoves);
            },
        };
        let mut board = board_of_rows(&rows);
        board.state = State { castling, en_passant, half_moves, full_moves, turn, opponent: 1 - turn };
        proof {
            assert(board@.squares =~= squares);
        }
        board.sync_all_pieces();
        board.zobrist = hasher.hash_everyting(&board);
        board.position_history.push(board.zobrist);
        proof {
            assert(board@.history =~= seq![board.zobrist]);
            assert(board@.squares == squares);
            assert(board.pieces_ok());
            assert(board.synced());
            assert(board.hash_ok(hasher));
            assert(board.state.wf());
            assert forall|t: int| 0 <= t < 64 implies ((#[trigger] board@.squares[t]) matches Some(p)
                ==> p.wf()) by {
                assert(squares[t] == cell(rows@, t));
            }
            assert(board@.wf() == fits_together(squares, board.state));
            assert(spec_parse_fen(fen@) == Ok::<(Seq<Option<Piece>>, State), FenError>(
                (squares, board.state),
            ));
        }
        Ok(board)
    }

    /// Whether the board is well formed: its state is in range, the board
    /// of all pieces is up to date, and the pieces and the state fit
    /// together.
    pub fn is_well_formed(&self) -> (r: bool)
        requires
            self.pieces_ok(),
        ensures
            r == self.wf(),
    {
        let state_in_range = self.state.turn < 2 && self.state.opponent == 1 - self.state.turn
            && self.state.castling.0 < 16 && match self.state.en_passant {
            Some(square) => square.as_u8() < 64,
            None => true,
        };
        if !state_in_range {
            return false;
        }
        proof {
            assert forall|t: int| 0 <= t < 64 implies ((#[trigger] self@.squares[t]) matches Some(p)
                ==> p.wf()) by {
                crate::moves::moves_calculation::lemma_piece_at_wf(self, t);
            }
        }
        self.all_pieces.0 == (self.colors[0].0 | self.colors[1].0) && fits(self)
    }

    /// Appends what is left to write of rank `rank` from file `file` on,
    /// after `run` empty squares not yet written.
    fn push_rank(&self, out: &mut Vec<char>, rank: u8)
        requires
            self.pieces_ok(),
            rank < 8,
        ensures
            final(out)@ == old(out)@ + rank_text(self@.squares, rank as int, 0, 0),
    {
        let ghost squares = self@.squares;
        let ghost start = out@;
        let mut empty_squares: u8 = 0;
        let mut j: u8 = 0;
        while j < 8
            invariant
                self.pieces_ok(),
                squares == self@.squares,
                rank < 8,
                j <= 8,
                empty_squares <= j,
                out@ + rank_text(squares, rank as int, j as int, empty_squares as int) == start
                    + rank_text(squares, rank as int, 0, 0),
            decreases 8 - j,
        {
            let square = Square::new(rank * 8 + j);
            let ghost so_far = out@;
            match self.get_piece_on_square(&square) {
                Some(piece) => {
                    if empty_squares > 0 {
                        out.push((48 + empty_squares) as char);
                    }
                    out.push(piece.to_char());
                    proof {
                        let pending = if empty_squares > 0 {
                            seq![digit_char(empty_squares as int)]
                        } else {
                            Seq::<char>::empty()
                        };
                        let letter = seq![piece_letter(piece.piece as int, piece.color as int)];
                        assert(out@ =~= so_far + pending + letter);
                        assert((so_far + pending + letter) + rank_text(squares, rank as int, j + 1, 0)
                            =~= so_far + (pending + letter + rank_text(
                            squares,
                            rank as int,
                            j + 1,
                            0,
                        )));
                    }
                    empty_squares = 0;
                },
                None => {
                    empty_squares = empty_squares + 1;
                },
            }
            j = j + 1;
        }
        let ghost so_far = out@;
        if empty_squares > 0 {
            out.push((48 + empty_squares) as char);
        }
        proof {
            assert(out@ =~= so_far + rank_text(squares, rank as int, 8, empty_squares as int));
        }
    }

    /// Appends the placement of the pieces.
    fn push_placement(&self, out: &mut Vec<char>)
        requires
            self.pieces_ok(),
        ensures
            final(out)@ == old(out)@ + ranks_text(self@.squares, 7),
    {
        let ghost squares = self@.squares;
        let ghost start = out@;
        let mut remaining: u8 = 8;
        while remaining > 0
            invariant
                self.pieces_ok(),
                squares == self@.squares,
                remaining <= 8,
                remaining > 0 ==> out@ + ranks_text(squares, remaining - 1) == start + ranks_text(
                    squares,
                    7,
                ),
                remaining == 0 ==> out@ == start + ranks_text(squares, 7),
            decreases remaining,
        {
            let i = remaining - 1;
            let ghost before = out@;
            self.push_rank(out, i);
            if i > 0 {
                out.push('/');
                proof {
                    assert(out@ =~= before + rank_text(squares, i as int, 0, 0) + seq!['/']);
                    assert((before + rank_text(squares, i as int, 0, 0) + seq!['/']) + ranks_text(
                        squares,
                        i - 1,
                    ) =~= before + (rank_text(squares, i as int, 0, 0) + seq!['/'] + ranks_text(
                        squares,
                        i - 1,
                    )));
                }
            }
            remaining = i;
        }
    }

    /// Appends the letters of the castling rights.
    fn push_castling(&self, out: &mut Vec<char>)
        ensures
            final(out)@ == old(out)@ + castling_text(self.state.castling),
    {
        if self.state.castling.white_short() {
            out.push('K');
        }
        if self.state.castling.white_long() {
            out.push('Q');
        }
        if self.state.castling.black_short() {
            out.push('k');
        }
        if self.state.castling.black_long() {
            out.push('q');
        }
        if self.state.castling.0 == 0 {
            proof {
                crate::types::state::lemma_flag_groups(0u8, 0);
                crate::types::state::lemma_flag_groups(0u8, 1);
                crate::types::state::lemma_flag_groups(0u8, 2);
                crate::types::state::lemma_flag_groups(0u8, 3);
            }
            out.push('-');
        }
        proof {
            assert(out@ =~= old(out)@ + castling_text(self.state.castling));
        }
    }

    /// The position in Forsyth-Edwards Notation.
    pub fn get_fen(&self) -> (fen: String)
        requires
            self.pieces_ok(),
            self.state.en_passant matches Some(sq) ==> sq.on_board(),
        ensures
            fen@ == spec_fen(self@.squares, self.state),
    {
        let ghost squares = self@.squares;
        let mut out: Vec<char> = Vec::new();
        self.push_placement(&mut out);
        out.push(' ');
        if self.state.turn == 0 {
            out.push('w');
        } else {
            out.push('b');
        }
        out.push(' ');
        proof {
            assert(out@ =~= ranks_text(squares, 7) + seq![' '] + turn_text(self.state.turn) + seq![
                ' ',
            ]);
        }
        self.push_castling(&mut out);
        let ghost before_target = out@;
        out.push(' ');
        match self.state.en_passant {
            Some(square) => {
                let mut name = square.name_chars();
                out.append(&mut name);
            },
            None => {
                out.push('-');
            },
        }
        out.push(' ');
        proof {
            assert(out@ =~= before_target + seq![' '] + en_passant_text(self.state.en_passant)
                + seq![' ']);
        }
        push_decimal(&mut out, self.state.half_moves as u16);
        out.push(' ');
        push_decimal(&mut out, self.state.full_moves);
        proof {
            assert(out@ =~= spec_fen(squares, self.state));
        }
        string_of(&out)
    }
}

/// The squares of rank `rank` from file `file` on in a diagram: each the
/// letter of its piece, or a space, between spaces and before a bar.
pub open spec fn spec_diagram_row(squares: Seq<Option<Piece>>, rank: int, file: int) -> Seq<char>
    decreases 8 - file,
{
    if file >= 8 {
        Seq::empty()
    } else {
        seq![
            ' ',
            match squares[rank * 8 + file] {
                Some(p) => piece_letter(p.piece as int, p.color as int),
                None => ' ',
            },
            ' ',
            '|',
        ] + spec_diagram_row(squares, rank, file + 1)
    }
}

/// The ranks from `rank` down in a diagram: under a rule, each with its
/// number before its squares.
pub open spec fn spec_diagram_from(squares: Seq<Option<Piece>>, rank: int) -> Seq<char>
    decreases rank + 1,
{
    if rank < 0 {
        Seq::empty()
    } else {
        "\n    -------------------------------\n "@ + seq![digit_char(rank + 1), ' ', '|']
            + spec_diagram_row(squares, rank, 0) + spec_diagram_from(squares, rank - 1)
    }
}

/// The diagram of a board: the ranks from the eighth down, a rule, and the
/// letters of the files.
pub open spec fn spec_diagram(squares: Seq<Option<Piece>>) -> Seq<char> {
    spec_diagram_from(squares, 7) + "\n    -------------------------------\n"@
        + "     A   B   C   D   E   F   G   H"@
}

impl Board {
    /// The board as a diagram; see `spec_diagram`.
    pub fn to_string(&self) -> (text: String)
        requires
            self.pieces_ok(),
        ensures
            text@ == spec_diagram(self@.squares),
    {
        let ghost squares = self@.squares;
        let mut out: Vec<char> = Vec::new();
        let mut remaining: u8 = 8;
        proof {
            assert(out@ + spec_diagram_from(squares, 7) =~= spec_diagram_from(squares, 7));
        }
        while remaining > 0
            invariant
                self.pieces_ok(),
                squares == self@.squares,
                remaining <= 8,
                out@ + spec_diagram_from(squares, remaining - 1) == spec_diagram_from(squares, 7),
            decreases remaining,
        {
            let rank = remaining - 1;
            let ghost start = out@;
            crate::utils::text::push_text(&mut out, "\n    -------------------------------\n ");
            out.push((49 + rank) as char);
            out.push(' ');
            out.push('|');
            let ghost head = out@;
            proof {
                assert(head =~= start + ("\n    -------------------------------\n "@ + seq![
                    digit_char(rank + 1),
                    ' ',
                    '|',
                ]));
                assert(out@ + spec_diagram_row(squares, rank as int, 0) =~= head + spec_diagram_row(
                    squares,
                    rank as int,
                    0,
                ));
            }
            let mut file: u8 = 0;
            while file < 8
                invariant
                    self.pieces_ok(),
                    squares == self@.squares,
                    rank < 8,
                    file <= 8,
                    out@ + spec_diagram_row(squares, rank as int, file as int) == head
                        + spec_diagram_row(squares, rank as int, 0),
                decreases 8 - file,
            {
                let ghost before = out@;
                let c = match self.get_piece_on_square(&Square::new(rank * 8 + file)) {
                    Some(piece) => piece.to_char(),
                    None => ' ',
                };
                out.push(' ');
                out.push(c);
                out.push(' ');
                out.push('|');
                proof {
                    assert(out@ =~= before + seq![' ', c, ' ', '|']);
                    assert((before + seq![' ', c, ' ', '|']) + spec_diagram_row(
                        squares,
                        rank as int,
                        file + 1,
                    ) =~= before + (seq![' ', c, ' ', '|'] + spec_diagram_row(
                        squares,
                        rank as int,
                        file + 1,
                    )));
                }
                file = file + 1;
            }
            proof {
                assert(out@ + spec_diagram_row(squares, rank as int, 8) =~= out@);
                assert((head + spec_diagram_row(squares, rank as int, 0)) + spec_diagram_from(
                    squares,
                    rank - 1,
                ) =~= start + ("\n    -------------------------------\n "@ + seq![
                    digit_char(rank + 1),
                    ' ',
                    '|',
                ] + spec_diagram_row(squares, rank as int, 0) + spec_diagram_from(squares, rank - 1)));
            }
            remaining = rank;
        }
        proof {
            assert(out@ + spec_diagram_from(squares, -1) =~= out@);
        }
        crate::utils::text::push_text(&mut out, "\n    -------------------------------\n");
        crate::utils::text::push_text(&mut out, "     A   B   C   D   E   F   G   H");
        string_of(&out)
    }
}

} // verus!
