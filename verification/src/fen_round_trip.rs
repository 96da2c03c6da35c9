//! The round trip of Forsyth-Edwards Notation: a well-formed position
//! written out and read back is the same position, and a canonical text
//! read and written out again is the same text.

use vstd::prelude::*;
use crate::fen::all_digits;
use crate::fen::castling_text;
use crate::fen::decimal_text;
use crate::fen::decimal_value;
use crate::fen::digit_char;
use crate::fen::digit_value;
use crate::fen::empties;
use crate::fen::en_passant_text;
use crate::fen::is_castling_letter;
use crate::fen::is_digit;
use crate::fen::parse_castling;
use crate::fen::parse_en_passant;
use crate::fen::parse_number;
use crate::fen::parse_placement;
use crate::fen::parse_rank;
use crate::fen::parse_rank_from;
use crate::fen::parse_turn;
use crate::fen::rank_text;
use crate::fen::ranks_text;
use crate::fen::spec_fen;
use crate::fen::spec_parse_fen;
use crate::fen::turn_text;
use crate::fen::FenError;
use crate::position::castling_of_flags;
use crate::position::Position;
use crate::types::piece::lemma_piece_letter_round_trip;
use crate::types::piece::piece_from_letter;
use crate::types::piece::piece_letter;
use crate::types::piece::Piece;
use crate::types::square::lemma_square_name_round_trip;
use crate::types::square::Square;
use crate::types::state::flag;
use crate::types::state::lemma_flag_ext;
use crate::types::state::lemma_flag_groups;
use crate::types::state::lemma_flags_of_value;
use crate::types::state::Castling;
use crate::types::state::State;
use crate::utils::text::free_of;
use crate::utils::text::lemma_trim_whole;
use crate::utils::text::spec_trim;
use crate::utils::text::lemma_split_prepend;
use crate::utils::text::lemma_split_whole;
use crate::utils::text::split_on;

verus! {

/// What stands on file `file` of rank `rank`.
pub open spec fn on_file(squares: Seq<Option<Piece>>, rank: int, file: int) -> Option<Piece> {
    squares[rank * 8 + file]
}

/// The squares of rank `rank` up to file `file`.
pub open spec fn row_upto(squares: Seq<Option<Piece>>, rank: int, file: int) -> Seq<Option<Piece>> {
    Seq::new(file as nat, |f: int| on_file(squares, rank, f))
}

/// A character that stands in the text of a rank: a digit 1 to 8 or a
/// piece letter, and so neither a space nor a slash.
pub open spec fn is_rank_char(c: char) -> bool {
    '1' <= c <= '8' || piece_from_letter(c).is_some()
}

/// The character of a digit is that digit.
pub proof fn lemma_digit_chars(d: int)
    ensures
        0 <= d <= 9 ==> is_digit(digit_char(d)) && digit_value(digit_char(d)) == d && digit_char(d)
            != ' ',
        1 <= d <= 8 ==> '1' <= digit_char(d) <= '8',
{
}

/// The text of a rank holds digits 1 to 8 and piece letters alone.
proof fn lemma_rank_text_chars(squares: Seq<Option<Piece>>, rank: int, file: int, run: int)
    requires
        squares.len() == 64,
        0 <= rank < 8,
        0 <= file <= 8,
        0 <= run <= file,
        forall|s: int| 0 <= s < 64 ==> ((#[trigger] squares[s]) matches Some(p) ==> p.wf()),
    ensures
        forall|j: int|
            0 <= j < rank_text(squares, rank, file, run).len() ==> is_rank_char(
                #[trigger] rank_text(squares, rank, file, run)[j],
            ),
    decreases 8 - file,
{
    let text = rank_text(squares, rank, file, run);
    lemma_digit_chars(run);
    if file < 8 {
        match squares[rank * 8 + file] {
            Some(p) => {
                lemma_rank_text_chars(squares, rank, file + 1, 0);
                lemma_piece_letter_round_trip(p.piece as int, p.color as int);
                let rest = rank_text(squares, rank, file + 1, 0);
                let letter = piece_letter(p.piece as int, p.color as int);
                assert(is_rank_char(letter));
                assert forall|j: int| 0 <= j < text.len() implies is_rank_char(#[trigger] text[j]) by {
                    if run > 0 {
                        assert(text =~= seq![digit_char(run)] + seq![letter] + rest);
                        if j >= 2 {
                            assert(text[j] == rest[j - 2]);
                            assert(is_rank_char(rest[j - 2]));
                        }
                    } else {
                        assert(text =~= seq![letter] + rest);
                        if j >= 1 {
                            assert(text[j] == rest[j - 1]);
                            assert(is_rank_char(rest[j - 1]));
                        }
                    }
                }
            },
            None => {
                lemma_rank_text_chars(squares, rank, file + 1, run + 1);
                assert(text == rank_text(squares, rank, file + 1, run + 1));
            },
        }
    } else {
        assert forall|j: int| 0 <= j < text.len() implies is_rank_char(#[trigger] text[j]) by {
            assert(text[j] == digit_char(run));
        }
    }
}

/// Reading the text of a rank gives the squares of the rank: with `before`
/// already read as the squares up to where the pending run of `run` empty
/// squares begins, reading what is left to write gives all eight.
proof fn lemma_rank_round_trip(
    squares: Seq<Option<Piece>>,
    rank: int,
    file: int,
    run: int,
    before: Seq<char>,
)
    requires
        squares.len() == 64,
        0 <= rank < 8,
        0 <= file <= 8,
        0 <= run <= file,
        forall|s: int| 0 <= s < 64 ==> ((#[trigger] squares[s]) matches Some(p) ==> p.wf()),
        forall|f: int| file - run <= f < file ==> (#[trigger] on_file(squares, rank, f)).is_none(),
    ensures
        parse_rank_from(
            before + rank_text(squares, rank, file, run),
            before.len() as int,
            row_upto(squares, rank, file - run),
        ) == Some(row_upto(squares, rank, 8)),
    decreases 8 - file,
{
    let rest = rank_text(squares, rank, file, run);
    let text = before + rest;
    let start = before.len() as int;
    let row = row_upto(squares, rank, file - run);
    let pending = if run > 0 {
        seq![digit_char(run)]
    } else {
        Seq::<char>::empty()
    };
    if file >= 8 {
        if run > 0 {
            assert(text[start] == digit_char(run));
            assert(row + empties(run) =~= row_upto(squares, rank, 8));
            assert(parse_rank_from(text, start + 1, row_upto(squares, rank, 8)) == Some(
                row_upto(squares, rank, 8),
            ));
        } else {
            assert(text =~= before);
        }
    } else {
        match squares[rank * 8 + file] {
            Some(p) => {
                let letter = piece_letter(p.piece as int, p.color as int);
                lemma_piece_letter_round_trip(p.piece as int, p.color as int);
                let tail = rank_text(squares, rank, file + 1, 0);
                let longer = before + pending + seq![letter];
                lemma_rank_round_trip(squares, rank, file + 1, 0, longer);
                assert(longer + tail =~= text);
                let with_empties = row + empties(run);
                assert(with_empties =~= row_upto(squares, rank, file));
                assert(with_empties.push(Some(p)) =~= row_upto(squares, rank, file + 1));
                if run > 0 {
                    assert(text[start] == digit_char(run));
                    assert(text[start + 1] == letter);
                    assert(parse_rank_from(text, start, row) == parse_rank_from(
                        text,
                        start + 1,
                        with_empties,
                    ));
                } else {
                    assert(text[start] == letter);
                    assert(with_empties =~= row);
                }
            },
            None => {
                lemma_rank_round_trip(squares, rank, file + 1, run + 1, before);
            },
        }
    }
}

/// Reading the text of a whole rank gives the squares of the rank.
proof fn lemma_whole_rank_round_trip(squares: Seq<Option<Piece>>, rank: int)
    requires
        squares.len() == 64,
        0 <= rank < 8,
        forall|s: int| 0 <= s < 64 ==> ((#[trigger] squares[s]) matches Some(p) ==> p.wf()),
    ensures
        parse_rank(rank_text(squares, rank, 0, 0)) == Some(row_upto(squares, rank, 8)),
        free_of(rank_text(squares, rank, 0, 0), '/'),
        free_of(rank_text(squares, rank, 0, 0), ' '),
{
    lemma_rank_round_trip(squares, rank, 0, 0, Seq::empty());
    assert(Seq::<char>::empty() + rank_text(squares, rank, 0, 0) =~= rank_text(squares, rank, 0, 0));
    assert(row_upto(squares, rank, 0) =~= Seq::<Option<Piece>>::empty());
    lemma_rank_text_chars(squares, rank, 0, 0);
    let text = rank_text(squares, rank, 0, 0);
    assert forall|j: int| 0 <= j < text.len() implies #[trigger] text[j] != '/' && text[j] != ' ' by {
        assert(is_rank_char(text[j]));
    }
}

/// The ranks from `rank` down, split at the slashes, are the texts of
/// those ranks, and they hold no space.
proof fn lemma_ranks_split(squares: Seq<Option<Piece>>, rank: int)
    requires
        squares.len() == 64,
        0 <= rank < 8,
        forall|s: int| 0 <= s < 64 ==> ((#[trigger] squares[s]) matches Some(p) ==> p.wf()),
    ensures
        split_on(ranks_text(squares, rank), '/') == Seq::new(
            (rank + 1) as nat,
            |i: int| rank_text(squares, rank - i, 0, 0),
        ),
        free_of(ranks_text(squares, rank), ' '),
    decreases rank,
{
    lemma_whole_rank_round_trip(squares, rank);
    let first = rank_text(squares, rank, 0, 0);
    if rank == 0 {
        lemma_split_whole(first, '/');
        assert(seq![first] =~= Seq::new(1, |i: int| rank_text(squares, 0 - i, 0, 0)));
    } else {
        lemma_ranks_split(squares, rank - 1);
        let rest = ranks_text(squares, rank - 1);
        lemma_split_prepend(first, '/', rest);
        assert(seq![first] + split_on(rest, '/') =~= Seq::new(
            (rank + 1) as nat,
            |i: int| rank_text(squares, rank - i, 0, 0),
        ));
        let text = ranks_text(squares, rank);
        assert forall|j: int| 0 <= j < text.len() implies #[trigger] text[j] != ' ' by {
            if j < first.len() {
                assert(text[j] == first[j]);
            } else if j > first.len() {
                assert(text[j] == rest[j - first.len() - 1]);
            }
        }
    }
}

/// Reading the placement of well-formed squares gives the squares.
pub proof fn lemma_placement_round_trip(squares: Seq<Option<Piece>>)
    requires
        squares.len() == 64,
        forall|s: int| 0 <= s < 64 ==> ((#[trigger] squares[s]) matches Some(p) ==> p.wf()),
    ensures
        parse_placement(ranks_text(squares, 7)) == Some(squares),
        free_of(ranks_text(squares, 7), ' '),
{
    lemma_ranks_split(squares, 7);
    let ranks = split_on(ranks_text(squares, 7), '/');
    assert forall|r: int| 0 <= r < 8 implies (#[trigger] parse_rank(ranks[r])) == Some(
        row_upto(squares, 7 - r, 8),
    ) by {
        lemma_whole_rank_round_trip(squares, 7 - r);
    }
    let read = Seq::new(64, |s: int| parse_rank(ranks[7 - s / 8]).unwrap()[s % 8]);
    assert forall|s: int| 0 <= s < 64 implies read[s] == squares[s] by {
        let r = 7 - s / 8;
        assert(parse_rank(ranks[r]) == Some(row_upto(squares, 7 - r, 8)));
    }
    assert(read =~= squares);
}

/// The digits of a number are digits, and reading them gives the number.
pub proof fn lemma_decimal_round_trip(n: nat)
    ensures
        decimal_text(n).len() > 0,
        all_digits(decimal_text(n)),
        decimal_value(decimal_text(n)) == n,
        free_of(decimal_text(n), ' '),
    decreases n,
{
    let text = decimal_text(n);
    lemma_digit_chars((n % 10) as int);
    if n >= 10 {
        lemma_decimal_round_trip(n / 10);
        let shorter = decimal_text(n / 10);
        assert(text.drop_last() =~= shorter);
        assert forall|i: int| 0 <= i < text.len() implies is_digit(#[trigger] text[i]) && text[i]
            != ' ' by {
            if i < shorter.len() {
                assert(text[i] == shorter[i]);
                assert(is_digit(shorter[i]));
            }
        }
        assert(text.last() == digit_char((n % 10) as int));
    } else {
        assert(text.drop_last() =~= Seq::<char>::empty());
        assert(text.last() == digit_char(n as int));
        assert(decimal_value(text.drop_last()) == 0);
    }
}

/// Reading the letters of castling rights gives the rights.
pub proof fn lemma_castling_round_trip(castling: Castling)
    requires
        castling.wf(),
    ensures
        parse_castling(castling_text(castling)) == Some(castling),
        free_of(castling_text(castling), ' '),
{
    let c = castling.0;
    let text = castling_text(castling);
    let k = flag(c, 0);
    let q = flag(c, 1);
    let bk = flag(c, 2);
    let bq = flag(c, 3);
    if c == 0 {
        lemma_flag_groups(0u8, 0);
    } else {
        if !(k || q || bk || bq) {
            lemma_flag_groups(0u8, 0);
            lemma_flag_groups(0u8, 1);
            lemma_flag_groups(0u8, 2);
            lemma_flag_groups(0u8, 3);
            lemma_flag_ext(c, 0u8);
        }
        let a = if k {
            seq!['K']
        } else {
            Seq::<char>::empty()
        };
        let b = if q {
            seq!['Q']
        } else {
            Seq::<char>::empty()
        };
        let d = if bk {
            seq!['k']
        } else {
            Seq::<char>::empty()
        };
        let e = if bq {
            seq!['q']
        } else {
            Seq::<char>::empty()
        };
        assert(text == a + b + d + e);
        assert forall|i: int| 0 <= i < text.len() implies is_castling_letter(#[trigger] text[i]) by {}
        assert(text.contains('K') == k) by {
            if k {
                assert(text[0] == 'K');
            }
        }
        assert(text.contains('Q') == q) by {
            if q {
                assert(text[a.len() as int] == 'Q');
            }
        }
        assert(text.contains('k') == bk) by {
            if bk {
                assert(text[(a + b).len() as int] == 'k');
            }
        }
        assert(text.contains('q') == bq) by {
            if bq {
                assert(text[(a + b + d).len() as int] == 'q');
            }
        }
        lemma_flags_of_value(k, q, bk, bq);
        lemma_flag_ext(c, castling_of_flags(k, q, bk, bq).0);
        assert(text[0] != '-');
    }
    assert forall|i: int| 0 <= i < text.len() implies #[trigger] text[i] != ' ' by {}
}

/// Reading the text of an en-passant target gives the target.
pub proof fn lemma_en_passant_round_trip(en_passant: Option<Square>)
    requires
        en_passant matches Some(sq) ==> sq.on_board(),
    ensures
        parse_en_passant(en_passant_text(en_passant)) == Some(en_passant),
        free_of(en_passant_text(en_passant), ' '),
{
    let text = en_passant_text(en_passant);
    match en_passant {
        Some(sq) => {
            lemma_square_name_round_trip(sq.0 as int);
            assert(text.len() == 2);
        },
        None => {},
    }
    assert forall|i: int| 0 <= i < text.len() implies #[trigger] text[i] != ' ' by {}
}

/// Six texts without space, joined by spaces, split into the six.
proof fn lemma_fields_split(
    f0: Seq<char>,
    f1: Seq<char>,
    f2: Seq<char>,
    f3: Seq<char>,
    f4: Seq<char>,
    f5: Seq<char>,
)
    requires
        free_of(f0, ' '),
        free_of(f1, ' '),
        free_of(f2, ' '),
        free_of(f3, ' '),
        free_of(f4, ' '),
        free_of(f5, ' '),
    ensures
        split_on(
            f0 + seq![' '] + f1 + seq![' '] + f2 + seq![' '] + f3 + seq![' '] + f4 + seq![' '] + f5,
            ' ',
        ) == seq![f0, f1, f2, f3, f4, f5],
{
    let sp = seq![' '];
    let r5 = f5;
    let r4 = f4 + sp + r5;
    let r3 = f3 + sp + r4;
    let r2 = f2 + sp + r3;
    let r1 = f1 + sp + r2;
    let r0 = f0 + sp + r1;
    lemma_split_whole(r5, ' ');
    lemma_split_prepend(f4, ' ', r5);
    lemma_split_prepend(f3, ' ', r4);
    lemma_split_prepend(f2, ' ', r3);
    lemma_split_prepend(f1, ' ', r2);
    lemma_split_prepend(f0, ' ', r1);
    assert(split_on(r4, ' ') =~= seq![f4, f5]);
    assert(split_on(r3, ' ') =~= seq![f3, f4, f5]);
    assert(split_on(r2, ' ') =~= seq![f2, f3, f4, f5]);
    assert(split_on(r1, ' ') =~= seq![f1, f2, f3, f4, f5]);
    assert(split_on(r0, ' ') =~= seq![f0, f1, f2, f3, f4, f5]);
    assert(f0 + sp + f1 + sp + f2 + sp + f3 + sp + f4 + sp + f5 =~= r0);
}

/// Writing a well-formed position in Forsyth-Edwards Notation and reading
/// the text back gives the pieces and the state of the position.
pub proof fn lemma_fen_round_trip(pos: Position)
    requires
        pos.wf(),
    ensures
        spec_parse_fen(spec_fen(pos.squares, pos.state)) == Ok::<
            (Seq<Option<Piece>>, State),
            FenError,
        >((pos.squares, pos.state)),
{
    let squares = pos.squares;
    let state = pos.state;
    let f0 = ranks_text(squares, 7);
    let f1 = turn_text(state.turn);
    let f2 = castling_text(state.castling);
    let f3 = en_passant_text(state.en_passant);
    let f4 = decimal_text(state.half_moves as nat);
    let f5 = decimal_text(state.full_moves as nat);
    lemma_placement_round_trip(squares);
    lemma_castling_round_trip(state.castling);
    lemma_en_passant_round_trip(state.en_passant);
    lemma_decimal_round_trip(state.half_moves as nat);
    lemma_decimal_round_trip(state.full_moves as nat);
    assert(free_of(f1, ' '));
    lemma_fields_split(f0, f1, f2, f3, f4, f5);
    let fields = split_on(spec_fen(squares, state), ' ');
    assert(fields == seq![f0, f1, f2, f3, f4, f5]);
    assert(fields[0] == f0 && fields[1] == f1 && fields[2] == f2 && fields[3] == f3 && fields[4]
        == f4 && fields[5] == f5);
    assert(parse_turn(f1) == Some(state.turn)) by {
        assert(seq!['b'][0] != seq!['w'][0]);
    }
    assert(parse_number(f4, 255) == Some(state.half_moves as int));
    assert(parse_number(f5, 65535) == Some(state.full_moves as int));
}

/// The text of a rank, or of what is left of it to write, is not empty.
proof fn lemma_rank_text_is_there(squares: Seq<Option<Piece>>, rank: int, file: int, run: int)
    requires
        0 <= file <= 8,
        0 <= run,
        file < 8 || run > 0,
    ensures
        rank_text(squares, rank, file, run).len() > 0,
    decreases 8 - file,
{
    if file < 8 && squares[rank * 8 + file] is None {
        lemma_rank_text_is_there(squares, rank, file + 1, run + 1);
    }
}

/// The text of a well-formed position neither begins nor ends with white
/// space: trimming leaves it whole.
pub proof fn lemma_trim_keeps_fen(pos: Position)
    requires
        pos.wf(),
    ensures
        spec_trim(spec_fen(pos.squares, pos.state)) == spec_fen(pos.squares, pos.state),
{
    let squares = pos.squares;
    let state = pos.state;
    let text = spec_fen(squares, state);
    let first = rank_text(squares, 7, 0, 0);
    let last = decimal_text(state.full_moves as nat);
    lemma_rank_text_is_there(squares, 7, 0, 0);
    lemma_rank_text_chars(squares, 7, 0, 0);
    lemma_decimal_round_trip(state.full_moves as nat);
    assert(is_rank_char(first[0]));
    assert(ranks_text(squares, 7)[0] == first[0]);
    assert(text[0] == first[0]);
    assert(text[text.len() - 1] == last[last.len() - 1]);
    assert(is_digit(last[last.len() - 1]));
    lemma_trim_whole(text);
}

/// Writing a well-formed position in Forsyth-Edwards Notation and reading
/// the text back as a string, which is trimmed first, gives the pieces and
/// the state of the position.
pub proof fn lemma_fen_string_round_trip(pos: Position)
    requires
        pos.wf(),
    ensures
        spec_parse_fen(spec_trim(spec_fen(pos.squares, pos.state))) == Ok::<
            (Seq<Option<Piece>>, State),
            FenError,
        >((pos.squares, pos.state)),
{
    lemma_trim_keeps_fen(pos);
    lemma_fen_round_trip(pos);
}

/// A text is canonical when it is what some well-formed position is
/// written as.
pub open spec fn is_canonical_fen(text: Seq<char>) -> bool {
    exists|pos: Position| pos.wf() && #[trigger] spec_fen(pos.squares, pos.state) == text
}

/// Reading a canonical text and writing the position out again gives the
/// text.
pub proof fn lemma_canonical_fen_round_trip(text: Seq<char>)
    requires
        is_canonical_fen(text),
    ensures
        spec_parse_fen(text) matches Ok((squares, state)) && spec_fen(squares, state) == text,
{
    let pos = choose|pos: Position| pos.wf() && #[trigger] spec_fen(pos.squares, pos.state) == text;
    lemma_fen_round_trip(pos);
}

} // verus!
