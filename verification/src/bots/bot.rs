//! The search: iterative deepening over a negamax search with alpha-beta
//! cuts, a quiescence search over captures at the leaves, and the
//! evaluation of the leaves.

use vstd::prelude::*;
use rand::Rng;
use crate::types::bitboard::BitBoard;
use crate::board::lemma_unmake_restores;
use crate::board::lemma_view_determines_boards;
use crate::board::Board;
use crate::bots::pesto::spec_pesto_score;
use crate::bots::pesto::PeSTO;
use crate::bots::stop::StopToken;
use crate::bots::time_control::TimeControl;
use crate::moves::legality::in_check;
use crate::moves::legality::lemma_kept_members;
use crate::moves::legality::lemma_legal_move_keeps_sound;
use crate::moves::legality::lemma_legal_moves_sound;
use crate::moves::legality::sound;
use crate::moves::legality::spec_capture_moves;
use crate::moves::legality::spec_legal_moves;
use crate::moves::move_mask_gen::MoveGenMasks;
use crate::moves::moves_utils::Move;
use crate::perft::lemma_sound_has_kings;
use crate::position::lemma_capture_takes_a_piece;
use crate::position::lemma_count_pieces_bound;
use crate::position::Position;
use crate::utils::zobrist::ZobristHasher;

verus! {

/// Below every score.
pub const MIN_VALUE: i32 = -1000000;

/// Above every score.
pub const MAX_VALUE: i32 = 1000000;

/// The score of having mated.
pub const CHECKMATE_SCORE: i32 = 990000;

/// The most that the count of legal moves adds to a score.
pub const MOBILITY_LIMIT: usize = 1000000;

pub open spec fn spec_max(a: int, b: int) -> int {
    if a >= b {
        a
    } else {
        b
    }
}

/// `x`, held between `low` and `high`.
pub open spec fn spec_clamp(x: int, low: int, high: int) -> int {
    if x < low {
        low
    } else if x > high {
        high
    } else {
        x
    }
}

/// The count of the legal moves of the side to move, as far as it counts.
pub open spec fn spec_mobility(pos: Position) -> int {
    if spec_legal_moves(pos).len() > MOBILITY_LIMIT {
        MOBILITY_LIMIT as int
    } else {
        spec_legal_moves(pos).len() as int
    }
}

/// The score of a position for the side to move: that of being mated if
/// it has no move and is in check, nothing if it has no move and is not, and
/// else the score of its pieces plus the count of its moves, held strictly
/// between the mate scores.
pub open spec fn spec_evaluate(pos: Position) -> int {
    if spec_legal_moves(pos).len() == 0 {
        if in_check(pos, pos.turn()) {
            -CHECKMATE_SCORE
        } else {
            0
        }
    } else {
        spec_clamp(
            spec_pesto_score(pos.squares, pos.turn()) + spec_mobility(pos),
            -(CHECKMATE_SCORE - 1),
            CHECKMATE_SCORE - 1,
        )
    }
}

/// The score of the quiescence search within the window from `alpha` to
/// `beta`: the evaluation if that is `beta` or more; else the better of the
/// evaluation and of what the captures lead to, each searched in turn with
/// the window narrowed by what was found, the search ending with the first
/// capture that scores `beta` or more.
pub open spec fn spec_quiescence(pos: Position, keys: Seq<u64>, alpha: int, beta: int) -> int
    decreases pos.piece_count(), 1nat, 0nat,
{
    let stand = spec_evaluate(pos);
    if stand >= beta {
        stand
    } else {
        spec_quiescence_from(
            pos,
            keys,
            spec_capture_moves(pos),
            0,
            spec_max(alpha, stand),
            beta,
            stand,
        )
    }
}

/// The quiescence search from the capture number `i` of `moves` on, with
/// `best` the best score so far.
pub open spec fn spec_quiescence_from(
    pos: Position,
    keys: Seq<u64>,
    moves: Seq<Move>,
    i: int,
    alpha: int,
    beta: int,
    best: int,
) -> int
    decreases pos.piece_count(), 0nat, moves.len() - i,
{
    if i < 0 || i >= moves.len() {
        best
    } else {
        let child = pos.after_move(moves[i], keys);
        let score = if child.piece_count() < pos.piece_count() {
            -spec_quiescence(child, keys, -beta, -alpha)
        } else {
            0
        };
        if score >= beta {
            score
        } else {
            spec_quiescence_from(
                pos,
                keys,
                moves,
                i + 1,
                spec_max(alpha, score),
                beta,
                spec_max(best, score),
            )
        }
    }
}

/// The position is drawn: it has occurred three times, or a hundred half
/// moves have passed without capture or pawn move.
pub open spec fn is_draw(pos: Position) -> bool {
    pos.is_repetition_draw() || pos.state.half_moves >= 100
}

/// The score of the search of depth `depth` within the window from `alpha`
/// to `beta`: nothing for a drawn position; the quiescence search at depth
/// nothing; else what the legal moves lead to, each searched in turn one
/// less deep with the window narrowed by what was found, `beta` as soon as a
/// move scores that or more, and `alpha` if none raises it.
pub open spec fn spec_alpha_beta(pos: Position, keys: Seq<u64>, alpha: int, beta: int, depth: nat) -> int
    decreases depth, 1nat, 0nat,
{
    if is_draw(pos) {
        0
    } else if depth == 0 {
        spec_quiescence(pos, keys, alpha, beta)
    } else {
        spec_alpha_beta_from(pos, keys, spec_legal_moves(pos), 0, alpha, beta, depth)
    }
}

/// The search from the move number `i` of `moves` on.
pub open spec fn spec_alpha_beta_from(
    pos: Position,
    keys: Seq<u64>,
    moves: Seq<Move>,
    i: int,
    alpha: int,
    beta: int,
    depth: nat,
) -> int
    decreases depth, 0nat, moves.len() - i,
{
    if depth == 0 || i < 0 || i >= moves.len() {
        alpha
    } else {
        let score = -spec_alpha_beta(
            pos.after_move(moves[i], keys),
            keys,
            -beta,
            -alpha,
            (depth - 1) as nat,
        );
        if score >= beta {
            beta
        } else {
            spec_alpha_beta_from(pos, keys, moves, i + 1, spec_max(alpha, score), beta, depth)
        }
    }
}

/// The search at the root from the move number `i` of `moves` on, `best`
/// being the best score and move so far: a move that scores mate is taken
/// at once, and else the first move with the highest score.
pub open spec fn spec_root_from(
    pos: Position,
    keys: Seq<u64>,
    moves: Seq<Move>,
    i: int,
    alpha: int,
    best: (int, Option<Move>),
    depth: nat,
) -> (int, Option<Move>)
    decreases moves.len() - i,
{
    if depth == 0 || i < 0 || i >= moves.len() {
        best
    } else {
        let score = -spec_alpha_beta(
            pos.after_move(moves[i], keys),
            keys,
            -(MAX_VALUE as int),
            -alpha,
            (depth - 1) as nat,
        );
        if score == CHECKMATE_SCORE {
            (score, Some(moves[i]))
        } else if score > alpha {
            spec_root_from(pos, keys, moves, i + 1, score, (score, Some(moves[i])), depth)
        } else {
            spec_root_from(pos, keys, moves, i + 1, alpha, best, depth)
        }
    }
}

/// The best score and move that a search of depth `depth` finds, no move
/// if there is none that is legal.
pub open spec fn spec_best_for_depth(pos: Position, keys: Seq<u64>, depth: nat) -> (int, Option<Move>) {
    spec_root_from(pos, keys, spec_legal_moves(pos), 0, MIN_VALUE as int, (0, None), depth)
}

/// A count as far as 64 bits hold it.
pub open spec fn spec_saturate(n: int) -> int {
    if n > u64::MAX {
        u64::MAX as int
    } else {
        n
    }
}

/// The nodes of the quiescence search within the window from `alpha` to
/// `beta`: one if the evaluation is `beta` or more, else those of the
/// captures that it searches.
pub open spec fn spec_quiescence_nodes(pos: Position, keys: Seq<u64>, alpha: int, beta: int) -> nat
    decreases pos.piece_count(), 1nat, 0nat,
{
    let stand = spec_evaluate(pos);
    if stand >= beta {
        1
    } else {
        spec_quiescence_nodes_from(pos, keys, spec_capture_moves(pos), 0, spec_max(alpha, stand), beta)
    }
}

/// The nodes of the quiescence search from the capture number `i` of
/// `moves` on.
pub open spec fn spec_quiescence_nodes_from(
    pos: Position,
    keys: Seq<u64>,
    moves: Seq<Move>,
    i: int,
    alpha: int,
    beta: int,
) -> nat
    decreases pos.piece_count(), 0nat, moves.len() - i,
{
    if i < 0 || i >= moves.len() {
        0
    } else {
        let child = pos.after_move(moves[i], keys);
        let smaller = child.piece_count() < pos.piece_count();
        let score = if smaller {
            -spec_quiescence(child, keys, -beta, -alpha)
        } else {
            0
        };
        let nodes = if smaller {
            spec_quiescence_nodes(child, keys, -beta, -alpha)
        } else {
            0
        };
        if score >= beta {
            nodes
        } else {
            nodes + spec_quiescence_nodes_from(pos, keys, moves, i + 1, spec_max(alpha, score), beta)
        }
    }
}

/// The nodes of the search of depth `depth` within the window from
/// `alpha` to `beta`: one for a drawn position, those of the quiescence
/// search at depth nothing, else those of the moves that it searches.
pub open spec fn spec_alpha_beta_nodes(
    pos: Position,
    keys: Seq<u64>,
    alpha: int,
    beta: int,
    depth: nat,
) -> nat
    decreases depth, 1nat, 0nat,
{
    if is_draw(pos) {
        1
    } else if depth == 0 {
        spec_quiescence_nodes(pos, keys, alpha, beta)
    } else {
        spec_alpha_beta_nodes_from(pos, keys, spec_legal_moves(pos), 0, alpha, beta, depth)
    }
}

/// The nodes of the search from the move number `i` of `moves` on.
pub open spec fn spec_alpha_beta_nodes_from(
    pos: Position,
    keys: Seq<u64>,
    moves: Seq<Move>,
    i: int,
    alpha: int,
    beta: int,
    depth: nat,
) -> nat
    decreases depth, 0nat, moves.len() - i,
{
    if depth == 0 || i < 0 || i >= moves.len() {
        0
    } else {
        let child = pos.after_move(moves[i], keys);
        let score = -spec_alpha_beta(child, keys, -beta, -alpha, (depth - 1) as nat);
        let nodes = spec_alpha_beta_nodes(child, keys, -beta, -alpha, (depth - 1) as nat);
        if score >= beta {
            nodes
        } else {
            nodes + spec_alpha_beta_nodes_from(
                pos,
                keys,
                moves,
                i + 1,
                spec_max(alpha, score),
                beta,
                depth,
            )
        }
    }
}

/// What a search at the root tells of itself from the move number `i` of
/// `moves` on: the lower end of its window at the end, and the nodes of the
/// moves that it searched. A move that scores mate ends the count.
pub open spec fn spec_root_report_from(
    pos: Position,
    keys: Seq<u64>,
    moves: Seq<Move>,
    i: int,
    alpha: int,
    depth: nat,
) -> (int, nat)
    decreases moves.len() - i,
{
    if depth == 0 || i < 0 || i >= moves.len() {
        (alpha, 0)
    } else {
        let child = pos.after_move(moves[i], keys);
        let score = -spec_alpha_beta(child, keys, -(MAX_VALUE as int), -alpha, (depth - 1) as nat);
        let nodes = spec_alpha_beta_nodes(
            child,
            keys,
            -(MAX_VALUE as int),
            -alpha,
            (depth - 1) as nat,
        );
        if score == CHECKMATE_SCORE {
            (alpha, 0)
        } else {
            let rest = spec_root_report_from(pos, keys, moves, i + 1, spec_max(alpha, score), depth);
            (rest.0, nodes + rest.1)
        }
    }
}

/// What the search of one depth tells of itself: the depth, the score
/// that it ends with, and the nodes that it looked at.
#[derive(Clone, Copy, Debug)]
pub struct DepthReport {
    pub depth: u8,
    pub score: i32,
    pub nodes: u64,
}

/// What the search of depth `depth` of `pos` tells of itself: the score
/// that it ends with and the nodes that it looked at.
pub open spec fn spec_depth_report(pos: Position, keys: Seq<u64>, depth: nat) -> DepthReport {
    let told = spec_root_report_from(pos, keys, spec_legal_moves(pos), 0, MIN_VALUE as int, depth);
    DepthReport { depth: depth as u8, score: told.0 as i32, nodes: spec_saturate(told.1 as int) as u64 }
}

/// What iterative deepening from depth `depth` to depth `max_depth` tells
/// of itself: a report of each depth in turn, up to the first that finds
/// mate, which tells nothing.
pub open spec fn spec_reports_from(pos: Position, keys: Seq<u64>, depth: int, max_depth: int) -> Seq<
    DepthReport,
>
    decreases max_depth - depth + 1,
{
    if depth > max_depth || depth < 1 {
        Seq::empty()
    } else if spec_best_for_depth(pos, keys, depth as nat).0 == CHECKMATE_SCORE {
        Seq::empty()
    } else {
        seq![spec_depth_report(pos, keys, depth as nat)] + spec_reports_from(
            pos,
            keys,
            depth + 1,
            max_depth,
        )
    }
}

/// The move of iterative deepening from depth `depth` to depth
/// `max_depth`, `last` being the move of the depth before: the move of the
/// first depth that finds mate, else that of the last depth.
pub open spec fn spec_deepening(
    pos: Position,
    keys: Seq<u64>,
    depth: int,
    max_depth: int,
    last: Option<Move>,
) -> Option<Move>
    decreases max_depth - depth + 1,
{
    if depth > max_depth || depth < 1 {
        last
    } else {
        let found = spec_best_for_depth(pos, keys, depth as nat);
        if found.0 == CHECKMATE_SCORE {
            found.1
        } else {
            spec_deepening(pos, keys, depth + 1, max_depth, found.1)
        }
    }
}

/// The move of iterative deepening up to depth `max_depth`.
pub open spec fn spec_best_move(pos: Position, keys: Seq<u64>, max_depth: int) -> Option<Move> {
    spec_deepening(pos, keys, 1, max_depth, None)
}

/// The counters of `pos` have room for a search of depth `depth` and the
/// captures after it.
pub open spec fn search_room(pos: Position, depth: int) -> bool {
    pos.state.full_moves + depth + 64 < u16::MAX
}

/// The sum of two counts as far as 64 bits hold it.
pub fn add_nodes(a: u64, b: u64) -> (sum: u64)
    ensures
        sum == spec_saturate(a + b),
{
    if a > u64::MAX - b {
        u64::MAX
    } else {
        a + b
    }
}

/// `Rng::random_range` of the crate rand on the generator `rand::rng()` of
/// the thread: an index below `len`, whichever the generator gives. The
/// crate panics on an empty range, which `len > 0` rules out, and where the
/// generator of the thread cannot be seeded from the system, which nothing
/// here can rule out.
#[verifier::external_body]
fn random_index(len: usize) -> (i: usize)
    requires
        len > 0,
    ensures
        i < len,
{
    let mut rng = rand::rng();
    rng.random_range(0..len)
}

/// The move number `i` of `moves`.
pub fn pick_move(moves: Vec<(Move, BitBoard)>, i: usize) -> (picked: (Move, BitBoard))
    requires
        i < moves.len(),
    ensures
        picked == moves[i as int],
{
    moves[i]
}

pub struct Bot {
    pub max_depth: u8,
    pub pesto: PeSTO,
    pub time_control: TimeControl,
}

impl Default for Bot {
    /// A bot that searches five deep on a clock that never runs out.
    fn default() -> (bot: Self)
        ensures
            bot.max_depth == 5,
            bot.time_control == crate::bots::time_control::spec_max_time(),
    {
        Self { max_depth: 5, pesto: PeSTO::default(), time_control: TimeControl::max() }
    }
}

impl Bot {
    /// One of `moves`, chosen at random.
    pub fn make_random_move(moves: Vec<(Move, BitBoard)>) -> (picked: (Move, BitBoard))
        requires
            moves.len() > 0,
        ensures
            moves@.contains(picked),
    {
        let i = random_index(moves.len());
        pick_move(moves, i)
    }

    pub fn with_depth(max_depth: u8, time_control: TimeControl) -> (bot: Self)
        ensures
            bot.max_depth == max_depth,
            bot.time_control == time_control,
    {
        Self { max_depth, pesto: PeSTO::default(), time_control }
    }

    pub fn set_depth(&mut self, max_depth: u8)
        ensures
            final(self).max_depth == max_depth,
            final(self).time_control == old(self).time_control,
    {
        self.max_depth = max_depth
    }

    pub fn set_time_control(&mut self, time_control: TimeControl)
        ensures
            final(self).time_control == time_control,
            final(self).max_depth == old(self).max_depth,
    {
        self.time_control = time_control
    }

    /// The count of the legal moves of the side to move, as far as it
    /// counts.
    pub fn get_number_of_moves(
        &self,
        board: &mut Board,
        move_gen_masks: &MoveGenMasks,
        hasher: &ZobristHasher,
    ) -> (n: i32)
        requires
            old(board).wf(),
            old(board)@.ready(),
            old(board)@.has_king(old(board).state.turn as int),
            move_gen_masks.wf(),
        ensures
            n == spec_mobility(old(board)@),
            (n == 0) == (spec_legal_moves(old(board)@).len() == 0),
            final(board)@ == old(board)@,
            final(board).colors == old(board).colors,
            final(board).pieces == old(board).pieces,
            final(board).all_pieces == old(board).all_pieces,
            final(board).wf(),
    {
        let count = board.get_legal_moves(move_gen_masks, hasher).len();
        if count > MOBILITY_LIMIT {
            MOBILITY_LIMIT as i32
        } else {
            count as i32
        }
    }

    /// The score of the position for the side to move.
    pub fn evaluate_position(
        &self,
        board: &mut Board,
        move_gen_masks: &MoveGenMasks,
        hasher: &ZobristHasher,
    ) -> (score: i32)
        requires
            old(board).wf(),
            old(board)@.ready(),
            old(board)@.has_king(old(board).state.turn as int),
            move_gen_masks.wf(),
        ensures
            score == spec_evaluate(old(board)@),
            -CHECKMATE_SCORE <= score <= CHECKMATE_SCORE,
            final(board)@ == old(board)@,
            final(board).colors == old(board).colors,
            final(board).pieces == old(board).pieces,
            final(board).all_pieces == old(board).all_pieces,
            final(board).wf(),
    {
        let n_legal_moves = self.get_number_of_moves(board, move_gen_masks, hasher);
        if n_legal_moves == 0 {
            if board.is_check(move_gen_masks) {
                return -CHECKMATE_SCORE;
            } else {
                return 0;
            }
        }
        let total: i64 = self.pesto.calculate_score(board) + n_legal_moves as i64;
        if total < -(CHECKMATE_SCORE as i64 - 1) {
            -(CHECKMATE_SCORE - 1)
        } else if total > CHECKMATE_SCORE as i64 - 1 {
            CHECKMATE_SCORE - 1
        } else {
            total as i32
        }
    }

    /// The quiescence search: the score and the nodes looked at; see
    /// `spec_quiescence` and `spec_quiescence_nodes`. It looks at the stop
    /// flag first and leaves the rest to `quiescence_after_poll`. The board is
    /// afterwards what it was.
    pub fn quiescence(
        &self,
        alpha: i32,
        beta: i32,
        board: &mut Board,
        move_gen_masks: &MoveGenMasks,
        hasher: &ZobristHasher,
        stop: &mut StopToken,
    ) -> (found: (i32, u64))
        requires
            old(board).wf(),
            sound(old(board)@),
            old(board).state.half_moves < u8::MAX,
            old(board).state.full_moves + old(board)@.piece_count() < u16::MAX,
            move_gen_masks.wf(),
            MIN_VALUE <= alpha <= MAX_VALUE,
            MIN_VALUE <= beta <= MAX_VALUE,
        ensures
            MIN_VALUE <= found.0 <= MAX_VALUE,
            !final(stop).seen ==> found.0 == spec_quiescence(
                old(board)@,
                hasher.keys(),
                alpha as int,
                beta as int,
            ),
            !final(stop).seen ==> found.1 == spec_saturate(
                spec_quiescence_nodes(old(board)@, hasher.keys(), alpha as int, beta as int) as int,
            ),
            old(stop).seen ==> final(stop).seen,
            final(board)@ == old(board)@,
            final(board).colors == old(board).colors,
            final(board).pieces == old(board).pieces,
            final(board).all_pieces == old(board).all_pieces,
            final(board).wf(),
        decreases old(board)@.piece_count(), 1nat,
    {
        let stopped = stop.poll();
        self.quiescence_after_poll(stopped, alpha, beta, board, move_gen_masks, hasher, stop)
    }

    /// The quiescence search once the stop flag has been looked at,
    /// `stopped` being what the look found: a search that is stopped scores
    /// nothing at once and counts no node; one that is not scores and counts
    /// as `spec_quiescence` and `spec_quiescence_nodes` say, unless a search
    /// below it sees the flag set, after which score and count mean nothing.
    /// The board is afterwards what it was.
    pub fn quiescence_after_poll(
        &self,
        stopped: bool,
        alpha: i32,
        beta: i32,
        board: &mut Board,
        move_gen_masks: &MoveGenMasks,
        hasher: &ZobristHasher,
        stop: &mut StopToken,
    ) -> (found: (i32, u64))
        requires
            old(board).wf(),
            sound(old(board)@),
            old(board).state.half_moves < u8::MAX,
            old(board).state.full_moves + old(board)@.piece_count() < u16::MAX,
            move_gen_masks.wf(),
            MIN_VALUE <= alpha <= MAX_VALUE,
            MIN_VALUE <= beta <= MAX_VALUE,
        ensures
            MIN_VALUE <= found.0 <= MAX_VALUE,
            stopped ==> found.0 == 0 && found.1 == 0 && *final(stop) == *old(stop),
            !stopped && !final(stop).seen ==> found.0 == spec_quiescence(
                old(board)@,
                hasher.keys(),
                alpha as int,
                beta as int,
            ),
            !stopped && !final(stop).seen ==> found.1 == spec_saturate(
                spec_quiescence_nodes(old(board)@, hasher.keys(), alpha as int, beta as int) as int,
            ),
            old(stop).seen ==> final(stop).seen,
            final(board)@ == old(board)@,
            final(board).colors == old(board).colors,
            final(board).pieces == old(board).pieces,
            final(board).all_pieces == old(board).all_pieces,
            final(board).wf(),
        decreases old(board)@.piece_count(), 0nat,
    {
        let ghost start = board@;
        let ghost keys = hasher.keys();
        if stopped {
            return (0, 0);
        }
        proof {
            lemma_sound_has_kings(start);
        }
        let mut best_value = self.evaluate_position(board, move_gen_masks, hasher);
        if best_value >= beta {
            proof {
                lemma_view_determines_boards(*old(board), *board);
            }
            return (best_value, 1);
        }
        let mut lower = alpha;
        if lower < best_value {
            lower = best_value;
        }
        let capture_moves = board.get_capture_moves(move_gen_masks, hasher);
        let ghost goal = spec_quiescence_from(
            start,
            keys,
            capture_moves@,
            0,
            lower as int,
            beta as int,
            best_value as int,
        );
        proof {
            lemma_legal_moves_sound(start);
            lemma_kept_members(
                spec_legal_moves(start),
                |m: Move| start.takes(m),
                spec_legal_moves(start).len() as int,
            );
        }
        let ghost goal_nodes = spec_saturate(
            spec_quiescence_nodes(start, keys, alpha as int, beta as int) as int,
        );
        let mut nodes_checked: u64 = 0;
        let mut i: usize = 0;
        while i < capture_moves.len()
            invariant
                !stopped,
                goal_nodes == spec_saturate(
                    spec_quiescence_nodes(start, keys, alpha as int, beta as int) as int,
                ),
                !stop.seen ==> spec_saturate(
                    nodes_checked + spec_quiescence_nodes_from(
                        start,
                        keys,
                        capture_moves@,
                        i as int,
                        lower as int,
                        beta as int,
                    ),
                ) == goal_nodes,
                board@ == start,
                start == old(board)@,
                old(board).wf(),
                board.wf(),
                sound(start),
                start.ready(),
                start.state.full_moves + start.piece_count() < u16::MAX,
                move_gen_masks.wf(),
                keys == hasher.keys(),
                capture_moves@ == spec_capture_moves(start),
                goal == spec_quiescence(start, keys, alpha as int, beta as int),
                forall|k: int|
                    0 <= k < capture_moves.len() ==> start.takes(#[trigger] capture_moves[k])
                        && spec_legal_moves(start).contains(capture_moves[k]),
                i <= capture_moves.len(),
                MIN_VALUE <= lower <= MAX_VALUE,
                MIN_VALUE <= beta <= MAX_VALUE,
                MIN_VALUE <= best_value <= MAX_VALUE,
                old(stop).seen ==> stop.seen,
                !stop.seen ==> spec_quiescence_from(
                    start,
                    keys,
                    capture_moves@,
                    i as int,
                    lower as int,
                    beta as int,
                    best_value as int,
                ) == goal,
            decreases capture_moves.len() - i,
        {
            let new_move = capture_moves[i];
            proof {
                lemma_legal_move_keeps_sound(start, new_move, keys);
                lemma_capture_takes_a_piece(start, new_move, keys);
                lemma_unmake_restores(start, new_move, keys);
            }
            let unmake_move_helper = board.make_move(&new_move, hasher);
            assert(board@.piece_count() < start.piece_count());
            let (opponent_score, nodes) = self.quiescence(
                -beta,
                -lower,
                board,
                move_gen_masks,
                hasher,
                stop,
            );
            board.unmake_move(unmake_move_helper);
            let score = -opponent_score;
            let ghost nodes_before = nodes_checked;
            nodes_checked = add_nodes(nodes_checked, nodes);
            proof {
                if !stop.seen {
                    let child = start.after_move(new_move, keys);
                    assert(child.piece_count() < start.piece_count());
                    assert(opponent_score == spec_quiescence(child, keys, -beta, -lower));
                    let below = spec_quiescence_nodes(child, keys, -beta, -lower);
                    assert(nodes == spec_saturate(below as int));
                    assert(spec_quiescence_nodes_from(
                        start,
                        keys,
                        capture_moves@,
                        i as int,
                        lower as int,
                        beta as int,
                    ) == (if score >= beta {
                        below
                    } else {
                        below + spec_quiescence_nodes_from(
                            start,
                            keys,
                            capture_moves@,
                            i + 1,
                            spec_max(lower as int, score as int),
                            beta as int,
                        )
                    }));
                    assert(nodes_checked == spec_saturate(nodes_before + below));
                    assert(spec_quiescence_from(
                        start,
                        keys,
                        capture_moves@,
                        i as int,
                        lower as int,
                        beta as int,
                        best_value as int,
                    ) == (if score >= beta {
                        score as int
                    } else {
                        spec_quiescence_from(
                            start,
                            keys,
                            capture_moves@,
                            i + 1,
                            spec_max(lower as int, score as int),
                            beta as int,
                            spec_max(best_value as int, score as int),
                        )
                    }));
                }
            }

            if score >= beta {
                proof {
                    lemma_view_determines_boards(*old(board), *board);
                }
                return (score, nodes_checked);
            }
            if score > best_value {
                best_value = score;
            }
            if score > lower {
                lower = score
            }
            i = i + 1;
        }
        proof {
            lemma_view_determines_boards(*old(board), *board);
        }
        (best_value, nodes_checked)
    }

    /// The search of depth `depth`: the score and the nodes looked at; see
    /// `spec_alpha_beta` and `spec_alpha_beta_nodes`. Within its window the
    /// score is the negamax value of the position. A drawn position scores
    /// nothing and is one node; else the search looks at the stop flag and
    /// leaves the rest to `alpha_beta_after_poll`. The board is afterwards
    /// what it was.
    pub fn alpha_beta(
        &self,
        board: &mut Board,
        move_gen_masks: &MoveGenMasks,
        hasher: &ZobristHasher,
        alpha: i32,
        beta: i32,
        depth: u8,
        stop: &mut StopToken,
    ) -> (found: (i32, u64))
        requires
            old(board).wf(),
            sound(old(board)@),
            search_room(old(board)@, depth as int),
            move_gen_masks.wf(),
            MIN_VALUE <= alpha <= MAX_VALUE,
            MIN_VALUE <= beta <= MAX_VALUE,
        ensures
            MIN_VALUE <= found.0 <= MAX_VALUE,
            is_draw(old(board)@) ==> found.0 == 0 && found.1 == 1 && *final(stop) == *old(stop),
            !final(stop).seen ==> found.0 == spec_alpha_beta(
                old(board)@,
                hasher.keys(),
                alpha as int,
                beta as int,
                depth as nat,
            ),
            !final(stop).seen ==> found.1 == spec_saturate(
                spec_alpha_beta_nodes(
                    old(board)@,
                    hasher.keys(),
                    alpha as int,
                    beta as int,
                    depth as nat,
                ) as int,
            ),
            !final(stop).seen && alpha <= beta ==> spec_clamp(found.0 as int, alpha as int, beta as int)
                == spec_clamp(
                crate::bots::negamax::spec_negamax(old(board)@, hasher.keys(), depth as nat),
                alpha as int,
                beta as int,
            ),
            old(stop).seen ==> final(stop).seen,
            final(board)@ == old(board)@,
            final(board).colors == old(board).colors,
            final(board).pieces == old(board).pieces,
            final(board).all_pieces == old(board).all_pieces,
            final(board).wf(),
        decreases depth, 1nat,
    {
        proof {
            if alpha <= beta {
                crate::bots::negamax::lemma_alpha_beta(
                    board@,
                    hasher.keys(),
                    alpha as int,
                    beta as int,
                    depth as nat,
                );
            }
        }
        if board.check_repeat_draw() || board.state.half_moves >= 100 {
            return (0, 1);
        }
        let stopped = stop.poll();
        self.alpha_beta_after_poll(stopped, board, move_gen_masks, hasher, alpha, beta, depth, stop)
    }

    /// The search of depth `depth` of a position that is not drawn, once the
    /// stop flag has been looked at, `stopped` being what the look found: a
    /// search that is stopped scores nothing at once and counts no node; one
    /// that is not scores and counts as `spec_alpha_beta` and
    /// `spec_alpha_beta_nodes` say, unless a search below it sees the flag
    /// set, after which score and count mean nothing. The board is afterwards
    /// what it was.
    pub fn alpha_beta_after_poll(
        &self,
        stopped: bool,
        board: &mut Board,
        move_gen_masks: &MoveGenMasks,
        hasher: &ZobristHasher,
        alpha: i32,
        beta: i32,
        depth: u8,
        stop: &mut StopToken,
    ) -> (found: (i32, u64))
        requires
            old(board).wf(),
            sound(old(board)@),
            !is_draw(old(board)@),
            search_room(old(board)@, depth as int),
            move_gen_masks.wf(),
            MIN_VALUE <= alpha <= MAX_VALUE,
            MIN_VALUE <= beta <= MAX_VALUE,
        ensures
            MIN_VALUE <= found.0 <= MAX_VALUE,
            stopped ==> found.0 == 0 && found.1 == 0 && *final(stop) == *old(stop),
            !stopped && !final(stop).seen ==> found.0 == spec_alpha_beta(
                old(board)@,
                hasher.keys(),
                alpha as int,
                beta as int,
                depth as nat,
            ),
            !stopped && !final(stop).seen ==> found.1 == spec_saturate(
                spec_alpha_beta_nodes(
                    old(board)@,
                    hasher.keys(),
                    alpha as int,
                    beta as int,
                    depth as nat,
                ) as int,
            ),
            !stopped && !final(stop).seen && alpha <= beta ==> spec_clamp(
                found.0 as int,
                alpha as int,
                beta as int,
            ) == spec_clamp(
                crate::bots::negamax::spec_negamax(old(board)@, hasher.keys(), depth as nat),
                alpha as int,
                beta as int,
            ),
            old(stop).seen ==> final(stop).seen,
            final(board)@ == old(board)@,
            final(board).colors == old(board).colors,
            final(board).pieces == old(board).pieces,
            final(board).all_pieces == old(board).all_pieces,
            final(board).wf(),
        decreases depth, 0nat,
    {
        let ghost start = board@;
        let ghost keys = hasher.keys();
        proof {
            if alpha <= beta {
                crate::bots::negamax::lemma_alpha_beta(
                    start,
                    keys,
                    alpha as int,
                    beta as int,
                    depth as nat,
                );
            }
        }
        if stopped {
            return (0, 0);
        }
        proof {
            lemma_count_pieces_bound(start.squares, 64);
            lemma_sound_has_kings(start);
        }
        if depth == 0 {
            return self.quiescence(alpha, beta, board, move_gen_masks, hasher, stop);
        }
        let legal_moves = board.get_legal_moves(move_gen_masks, hasher);
        let ghost goal = spec_alpha_beta_from(
            start,
            keys,
            legal_moves@,
            0,
            alpha as int,
            beta as int,
            depth as nat,
        );
        let ghost goal_nodes = spec_saturate(
            spec_alpha_beta_nodes(start, keys, alpha as int, beta as int, depth as nat) as int,
        );
        let mut nodes_checked: u64 = 0;
        let mut lower = alpha;
        let mut i: usize = 0;
        while i < legal_moves.len()
            invariant
                !stopped,
                goal_nodes == spec_saturate(
                    spec_alpha_beta_nodes(start, keys, alpha as int, beta as int, depth as nat) as int,
                ),
                !stop.seen ==> spec_saturate(
                    nodes_checked + spec_alpha_beta_nodes_from(
                        start,
                        keys,
                        legal_moves@,
                        i as int,
                        lower as int,
                        beta as int,
                        depth as nat,
                    ),
                ) == goal_nodes,
                board@ == start,
                start == old(board)@,
                old(board).wf(),
                board.wf(),
                sound(start),
                start.ready(),
                search_room(start, depth as int),
                depth > 0,
                goal == spec_alpha_beta(start, keys, alpha as int, beta as int, depth as nat),
                alpha <= beta ==> spec_clamp(goal, alpha as int, beta as int) == spec_clamp(
                    crate::bots::negamax::spec_negamax(start, keys, depth as nat),
                    alpha as int,
                    beta as int,
                ),
                move_gen_masks.wf(),
                keys == hasher.keys(),
                legal_moves@ == spec_legal_moves(start),
                i <= legal_moves.len(),
                MIN_VALUE <= lower <= MAX_VALUE,
                MIN_VALUE <= beta <= MAX_VALUE,
                old(stop).seen ==> stop.seen,
                !stop.seen ==> spec_alpha_beta_from(
                    start,
                    keys,
                    legal_moves@,
                    i as int,
                    lower as int,
                    beta as int,
                    depth as nat,
                ) == goal,
            decreases legal_moves.len() - i,
        {
            let new_move = legal_moves[i];
            proof {
                assert(spec_legal_moves(start).contains(new_move));
                lemma_legal_move_keeps_sound(start, new_move, keys);
                lemma_unmake_restores(start, new_move, keys);
            }
            let unmake_move_helper = board.make_move(&new_move, hasher);
            let (opponent_score, nodes) = self.alpha_beta(
                board,
                move_gen_masks,
                hasher,
                -beta,
                -lower,
                depth - 1,
                stop,
            );
            let score = -opponent_score;
            let ghost nodes_before = nodes_checked;
            nodes_checked = add_nodes(nodes_checked, nodes);
            board.unmake_move(unmake_move_helper);
            proof {
                if !stop.seen {
                    let child = start.after_move(new_move, keys);
                    assert(opponent_score == spec_alpha_beta(
                        child,
                        keys,
                        -beta,
                        -lower,
                        (depth - 1) as nat,
                    ));
                    let below = spec_alpha_beta_nodes(child, keys, -beta, -lower, (depth - 1) as nat);
                    assert(nodes == spec_saturate(below as int));
                    assert(spec_alpha_beta_nodes_from(
                        start,
                        keys,
                        legal_moves@,
                        i as int,
                        lower as int,
                        beta as int,
                        depth as nat,
                    ) == (if score >= beta {
                        below
                    } else {
                        below + spec_alpha_beta_nodes_from(
                            start,
                            keys,
                            legal_moves@,
                            i + 1,
                            spec_max(lower as int, score as int),
                            beta as int,
                            depth as nat,
                        )
                    }));
                    assert(nodes_checked == spec_saturate(nodes_before + below));
                    assert(spec_alpha_beta_from(
                        start,
                        keys,
                        legal_moves@,
                        i as int,
                        lower as int,
                        beta as int,
                        depth as nat,
                    ) == (if score >= beta {
                        beta as int
                    } else {
                        spec_alpha_beta_from(
                            start,
                            keys,
                            legal_moves@,
                            i + 1,
                            spec_max(lower as int, score as int),
                            beta as int,
                            depth as nat,
                        )
                    }));
                }
            }

            if score >= beta {
                proof {
                    lemma_view_determines_boards(*old(board), *board);
                }
                return (beta, nodes_checked);
            }
            if score > lower {
                lower = score;
            }
            i = i + 1;
        }
        proof {
            lemma_view_determines_boards(*old(board), *board);
        }
        (lower, nodes_checked)
    }

    /// The best score and move that a search of depth `depth` finds, and
    /// what the search tells of itself; see `spec_best_for_depth` and
    /// `spec_depth_report`. Once the stop flag is seen set the search gives up
    /// and what it returns means nothing. The board is afterwards what it
    /// was.
    pub fn get_best_move_for_depth(
        &self,
        depth: u8,
        board: &mut Board,
        move_gen_masks: &MoveGenMasks,
        hasher: &ZobristHasher,
        stop: &mut StopToken,
    ) -> (found: (i32, Option<Move>, DepthReport))
        requires
            depth >= 1,
            old(board).wf(),
            sound(old(board)@),
            old(board)@.ready(),
            search_room(old(board)@, depth as int),
            move_gen_masks.wf(),
        ensures
            !final(stop).seen ==> (found.0 as int, found.1) == spec_best_for_depth(
                old(board)@,
                hasher.keys(),
                depth as nat,
            ),
            !final(stop).seen ==> found.2 == spec_depth_report(
                old(board)@,
                hasher.keys(),
                depth as nat,
            ),
            old(stop).seen ==> final(stop).seen,
            final(board)@ == old(board)@,
            final(board).colors == old(board).colors,
            final(board).pieces == old(board).pieces,
            final(board).all_pieces == old(board).all_pieces,
            final(board).wf(),
    {
        let ghost start = board@;
        let ghost keys = hasher.keys();
        let mut best_move: (i32, Option<Move>) = (0, None);
        let mut alpha = MIN_VALUE;
        let beta = MAX_VALUE;
        proof {
            lemma_sound_has_kings(start);
        }
        let legal_moves = board.get_legal_moves(move_gen_masks, hasher);
        let ghost goal = spec_best_for_depth(start, keys, depth as nat);
        let ghost told = spec_root_report_from(
            start,
            keys,
            legal_moves@,
            0,
            MIN_VALUE as int,
            depth as nat,
        );
        let mut nodes_checked: u64 = 0;
        let mut i: usize = 0;
        while i < legal_moves.len()
            invariant
                told == spec_root_report_from(
                    start,
                    keys,
                    spec_legal_moves(start),
                    0,
                    MIN_VALUE as int,
                    depth as nat,
                ),
                !stop.seen ==> spec_root_report_from(
                    start,
                    keys,
                    legal_moves@,
                    i as int,
                    alpha as int,
                    depth as nat,
                ).0 == told.0,
                !stop.seen ==> spec_saturate(
                    nodes_checked + spec_root_report_from(
                        start,
                        keys,
                        legal_moves@,
                        i as int,
                        alpha as int,
                        depth as nat,
                    ).1,
                ) == spec_saturate(told.1 as int),
                board@ == start,
                start == old(board)@,
                old(board).wf(),
                board.wf(),
                sound(start),
                start.ready(),
                search_room(start, depth as int),
                depth >= 1,
                move_gen_masks.wf(),
                keys == hasher.keys(),
                goal == spec_best_for_depth(start, keys, depth as nat),
                legal_moves@ == spec_legal_moves(start),
                i <= legal_moves.len(),
                beta == MAX_VALUE,
                MIN_VALUE <= alpha <= MAX_VALUE,
                old(stop).seen ==> stop.seen,
                !stop.seen ==> spec_root_from(
                    start,
                    keys,
                    legal_moves@,
                    i as int,
                    alpha as int,
                    (best_move.0 as int, best_move.1),
                    depth as nat,
                ) == goal,
            decreases legal_moves.len() - i,
        {
            if stop.poll() {
                proof {
                    lemma_view_determines_boards(*old(board), *board);
                }
                return (best_move.0, best_move.1, DepthReport { depth, score: alpha, nodes: nodes_checked });
            }
            let new_move = legal_moves[i];
            proof {
                assert(spec_legal_moves(start).contains(new_move));
                lemma_legal_move_keeps_sound(start, new_move, keys);
                lemma_unmake_restores(start, new_move, keys);
            }
            let unmake_move_helper = board.make_move(&new_move, hasher);
            let (opponent_score, nodes) = self.alpha_beta(
                board,
                move_gen_masks,
                hasher,
                -beta,
                -alpha,
                depth - 1,
                stop,
            );
            board.unmake_move(unmake_move_helper);
            let score = -opponent_score;
            proof {
                if !stop.seen {
                    let child = start.after_move(new_move, keys);
                    let below = spec_alpha_beta_nodes(
                        child,
                        keys,
                        -(MAX_VALUE as int),
                        -alpha,
                        (depth - 1) as nat,
                    );
                    let here = spec_root_report_from(
                        start,
                        keys,
                        legal_moves@,
                        i as int,
                        alpha as int,
                        depth as nat,
                    );
                    let rest = spec_root_report_from(
                        start,
                        keys,
                        legal_moves@,
                        i + 1,
                        spec_max(alpha as int, score as int),
                        depth as nat,
                    );
                    assert(nodes == spec_saturate(below as int));
                    assert(here == (if score == CHECKMATE_SCORE {
                        (alpha as int, 0nat)
                    } else {
                        (rest.0, below + rest.1)
                    }));
                }
            }

            if score == CHECKMATE_SCORE {
                proof {
                    lemma_view_determines_boards(*old(board), *board);
                }
                return (score, Some(new_move), DepthReport { depth, score: alpha, nodes: nodes_checked });
            }
            nodes_checked = add_nodes(nodes_checked, nodes);
            if score > alpha {
                alpha = score;
                best_move = (score, Some(new_move));
            }
            i = i + 1;
        }
        proof {
            lemma_view_determines_boards(*old(board), *board);
        }
        (best_move.0, best_move.1, DepthReport { depth, score: alpha, nodes: nodes_checked })
    }

    /// The move of iterative deepening up to the depth of the bot: each depth
    /// is searched in turn, a depth that finds mate ends the search, and a
    /// depth during which the stop flag is seen set does not count. So the
    /// move is always that of some depth searched in full, and that of the
    /// deepest if the flag was never seen set. Each depth searched in full
    /// that finds no mate adds what it tells of itself to `reports`. The board
    /// is afterwards what it was.
    pub fn get_best_move(
        &self,
        board: &mut Board,
        move_gen_masks: &MoveGenMasks,
        hasher: &ZobristHasher,
        stop: &mut StopToken,
        reports: &mut Vec<DepthReport>,
    ) -> (best: Option<Move>)
        requires
            old(board).wf(),
            sound(old(board)@),
            old(board)@.ready(),
            search_room(old(board)@, self.max_depth as int),
            move_gen_masks.wf(),
        ensures
            exists|depth: int|
                0 <= depth <= self.max_depth && best == #[trigger] spec_best_move(
                    old(board)@,
                    hasher.keys(),
                    depth,
                ),
            !final(stop).seen ==> best == spec_best_move(
                old(board)@,
                hasher.keys(),
                self.max_depth as int,
            ),
            !final(stop).seen ==> final(reports)@ == old(reports)@ + spec_reports_from(
                old(board)@,
                hasher.keys(),
                1,
                self.max_depth as int,
            ),
            final(reports)@.is_prefix_of(
                old(reports)@ + spec_reports_from(old(board)@, hasher.keys(), 1, self.max_depth as int),
            ),
            old(reports)@.is_prefix_of(final(reports)@),
            old(stop).seen ==> final(stop).seen,
            final(board)@ == old(board)@,
            final(board).colors == old(board).colors,
            final(board).pieces == old(board).pieces,
            final(board).all_pieces == old(board).all_pieces,
            final(board).wf(),
    {
        let ghost start = board@;
        let ghost keys = hasher.keys();
        let mut last: Option<Move> = None;
        let mut depth: u16 = 1;
        proof {
            assert(spec_best_move(start, keys, 0) == None::<Move>);
        }
        let ghost all = old(reports)@ + spec_reports_from(start, keys, 1, self.max_depth as int);
        while depth <= self.max_depth as u16
            invariant
                all == old(reports)@ + spec_reports_from(start, keys, 1, self.max_depth as int),
                reports@ + spec_reports_from(start, keys, depth as int, self.max_depth as int) == all,
                old(reports)@.is_prefix_of(reports@),
                board@ == start,
                start == old(board)@,
                board.wf(),
                board.colors == old(board).colors,
                board.pieces == old(board).pieces,
                board.all_pieces == old(board).all_pieces,
                sound(start),
                start.ready(),
                search_room(start, self.max_depth as int),
                move_gen_masks.wf(),
                keys == hasher.keys(),
                1 <= depth <= self.max_depth + 1,
                old(stop).seen ==> stop.seen,
                last == spec_best_move(start, keys, depth - 1),
                forall|max: int|
                    depth - 1 <= max ==> spec_deepening(start, keys, depth as int, max, last)
                        == #[trigger] spec_best_move(start, keys, max),
            decreases self.max_depth + 1 - depth,
        {
            let (best_score, best_move, report) = self.get_best_move_for_depth(
                depth as u8,
                board,
                move_gen_masks,
                hasher,
                stop,
            );
            let ghost rest = spec_reports_from(start, keys, depth as int, self.max_depth as int);
            proof {
                assert(reports@ =~= all.subrange(0, reports@.len() as int));
            }
            if stop.seen {
                // the depth was not searched in full: the move of the depth
                // before stands
                assert(last == spec_best_move(start, keys, depth - 1));
                return last;
            }
            proof {
                assert forall|max: int| depth <= max implies spec_deepening(
                    start,
                    keys,
                    depth as int,
                    max,
                    last,
                ) == (if best_score == CHECKMATE_SCORE {
                    best_move
                } else {
                    spec_deepening(start, keys, depth + 1, max, best_move)
                }) by {}
                assert(spec_deepening(start, keys, depth as int, depth as int, last)
                    == spec_best_move(start, keys, depth as int));
                assert(spec_deepening(start, keys, depth + 1, depth as int, best_move) == best_move);
                assert(spec_best_move(start, keys, depth as int) == best_move);
            }
            if best_score == CHECKMATE_SCORE {
                proof {
                    assert(spec_deepening(start, keys, depth as int, self.max_depth as int, last)
                        == spec_best_move(start, keys, self.max_depth as int));
                }
                proof {
                    assert(rest =~= Seq::<DepthReport>::empty());
                    assert(reports@ =~= all);
                }
                return best_move;
            }
            let ghost earlier = reports@;
            reports.push(report);
            proof {
                let later = spec_reports_from(start, keys, depth + 1, self.max_depth as int);
                assert(rest == seq![report] + later);
                assert(reports@ + later =~= earlier + rest);
                assert(old(reports)@ =~= reports@.subrange(0, old(reports)@.len() as int));
            }
            proof {
                assert forall|max: int| depth <= max implies spec_deepening(
                    start,
                    keys,
                    depth + 1,
                    max,
                    best_move,
                ) == #[trigger] spec_best_move(start, keys, max) by {
                    assert(spec_deepening(start, keys, depth as int, max, last) == spec_best_move(
                        start,
                        keys,
                        max,
                    ));
                }
            }
            last = best_move;
            depth = depth + 1;
        }
        proof {
            assert(reports@ =~= all);
        }
        last
    }
}

} // verus!
