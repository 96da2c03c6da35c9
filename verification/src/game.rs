//! The engine behind the Universal Chess Interface: what each command does
//! to the game, and what the engine answers. Reading the commands and
//! printing the answers is left to the program around it.

use vstd::prelude::*;
use vstd::string::StringExecFns;
use crate::board::first_same;
use crate::board::is_start_position;
use crate::board::Board;
use crate::bots::bot::search_room;
use crate::bots::bot::spec_reports_from;
use crate::bots::bot::DepthReport;
use crate::bots::bot::spec_best_move;
use crate::bots::bot::Bot;
use crate::bots::stop::StopToken;
use crate::bots::time_control::TimeControl;
use crate::fen::decimal_text;
use crate::fen::parse_number;
use crate::fen::push_count;
use crate::fen::push_signed;
use crate::fen::signed_text;
use crate::fen::parse_number_text;
use crate::fen::spec_parse_fen;
use crate::moves::legality::lemma_legal_move_keeps_sound;
use crate::moves::legality::sound;
use crate::moves::moves_calculation::attacks_from;
use crate::moves::moves_calculation::pawn_attacks;
use crate::moves::geometry::knight_step;
use crate::moves::geometry::king_step;
use crate::moves::geometry::ray_attacks;
use crate::moves::geometry::ray_on_board;
use crate::moves::geometry::ray_square;
use crate::moves::geometry::ray_clear;
use crate::types::bits::bit;
use crate::types::bits::lemma_board_of;
use crate::moves::legality::spec_legal_moves;
use crate::moves::move_mask_gen::constants_usable;
use crate::moves::move_mask_gen::MoveGenMasks;
use crate::moves::moves_utils::spec_long_move;
use crate::moves::moves_utils::Move;
use crate::perft::lemma_sound_has_kings;
use crate::position::Position;
use crate::types::piece::Piece;
use crate::types::state::State;
use crate::types::state::Castling;
use crate::utils::zobrist::ZobristHash;
use crate::utils::zobrist::spec_hash_everything;
use crate::utils::text::join;
use crate::utils::text::push_text;
use crate::utils::text::string_of;
use crate::utils::text::joined;
use crate::utils::text::texts;
use crate::utils::text::word_is;
use crate::utils::zobrist::ZobristHasher;

verus! {

/// A command of the interface, by its first word.
#[derive(Clone, Copy, Debug, PartialEq, Eq, Structural)]
pub enum UciCommand {
    Uci,
    IsReady,
    NewGame,
    Position,
    Go,
    Stop,
    Quit,
    PrintBoard,
    /// Any other first word, and no word at all: to be ignored.
    Unknown,
}

/// The command that the words `words` begin.
pub open spec fn spec_command(words: Seq<Seq<char>>) -> UciCommand {
    if words.len() == 0 {
        UciCommand::Unknown
    } else if words[0] == "uci"@ {
        UciCommand::Uci
    } else if words[0] == "isready"@ {
        UciCommand::IsReady
    } else if words[0] == "ucinewgame"@ {
        UciCommand::NewGame
    } else if words[0] == "position"@ {
        UciCommand::Position
    } else if words[0] == "go"@ {
        UciCommand::Go
    } else if words[0] == "stop"@ {
        UciCommand::Stop
    } else if words[0] == "quit"@ {
        UciCommand::Quit
    } else if words[0] == "print_board"@ {
        UciCommand::PrintBoard
    } else {
        UciCommand::Unknown
    }
}

/// The command that the words `words` begin.
pub fn command_of(words: &Vec<Vec<char>>) -> (command: UciCommand)
    ensures
        command == spec_command(texts(words@)),
{
    if words.len() == 0 {
        return UciCommand::Unknown;
    }
    proof {
        assert(texts(words@)[0] == words[0]@);
    }
    let first = &words[0];
    if word_is(first, "uci") {
        UciCommand::Uci
    } else if word_is(first, "isready") {
        UciCommand::IsReady
    } else if word_is(first, "ucinewgame") {
        UciCommand::NewGame
    } else if word_is(first, "position") {
        UciCommand::Position
    } else if word_is(first, "go") {
        UciCommand::Go
    } else if word_is(first, "stop") {
        UciCommand::Stop
    } else if word_is(first, "quit") {
        UciCommand::Quit
    } else if word_is(first, "print_board") {
        UciCommand::PrintBoard
    } else {
        UciCommand::Unknown
    }
}

/// What a `go` command asks for.
#[derive(Clone, Copy, Debug, PartialEq, Eq, Structural)]
pub struct GoSettings {
    pub wtime: u32,
    pub btime: u32,
    pub winc: u32,
    pub binc: u32,
    pub move_time: Option<u32>,
    pub depth: Option<u8>,
}

/// What a `go` command without arguments asks for: no limit of time or
/// depth beyond what the engine has.
pub open spec fn default_go_settings() -> GoSettings {
    GoSettings { wtime: u32::MAX, btime: u32::MAX, winc: 0, binc: 0, move_time: None, depth: None }
}

/// The number after word `i` of `args`, if there is one up to `limit`.
pub open spec fn spec_value_after(args: Seq<Seq<char>>, i: int, limit: int) -> Option<int> {
    if i + 1 < args.len() {
        parse_number(args[i + 1], limit)
    } else {
        None
    }
}

/// `settings` with what word `i` of `args` asks for: `infinite` asks for
/// the greatest depth, and `wtime`, `btime`, `winc`, `binc`, `movetime` and
/// `depth` for the number that follows them; a word that is none of these,
/// or that no number in range follows, changes nothing.
pub open spec fn spec_go_step(args: Seq<Seq<char>>, i: int, settings: GoSettings) -> GoSettings {
    let time = spec_value_after(args, i, u32::MAX as int);
    let depth = spec_value_after(args, i, u8::MAX as int);
    if args[i] == "infinite"@ {
        GoSettings { depth: Some(u8::MAX), ..settings }
    } else if args[i] == "wtime"@ && time.is_some() {
        GoSettings { wtime: time.unwrap() as u32, ..settings }
    } else if args[i] == "btime"@ && time.is_some() {
        GoSettings { btime: time.unwrap() as u32, ..settings }
    } else if args[i] == "winc"@ && time.is_some() {
        GoSettings { winc: time.unwrap() as u32, ..settings }
    } else if args[i] == "binc"@ && time.is_some() {
        GoSettings { binc: time.unwrap() as u32, ..settings }
    } else if args[i] == "movetime"@ && time.is_some() {
        GoSettings { move_time: Some(time.unwrap() as u32), ..settings }
    } else if args[i] == "depth"@ && depth.is_some() {
        GoSettings { depth: Some(depth.unwrap() as u8), ..settings }
    } else {
        settings
    }
}

/// What the words of `args` from number `i` on make of `settings`.
pub open spec fn spec_go_from(args: Seq<Seq<char>>, i: int, settings: GoSettings) -> GoSettings
    decreases args.len() - i,
{
    if i < 0 || i >= args.len() {
        settings
    } else {
        spec_go_from(args, i + 1, spec_go_step(args, i, settings))
    }
}

/// What the `go` command with the words `args`, `go` itself the first,
/// asks for.
pub open spec fn spec_go_settings(args: Seq<Seq<char>>) -> GoSettings {
    spec_go_from(args, 1, default_go_settings())
}

/// The number after word `i` of `args`, if there is one up to `limit`.
fn value_after(args: &Vec<Vec<char>>, i: usize, limit: u32) -> (value: Option<u32>)
    requires
        i < args.len(),
    ensures
        match spec_value_after(texts(args@), i as int, limit as int) {
            Some(n) => value == Some(n as u32) && 0 <= n <= limit,
            None => value.is_none(),
        },
{
    if i + 1 < args.len() {
        proof {
            assert(texts(args@)[i + 1] == args[i + 1]@);
        }
        parse_number_text(&args[i + 1], limit)
    } else {
        None
    }
}

/// What the `go` command with the words `args` asks for.
pub fn go_settings(args: &Vec<Vec<char>>) -> (settings: GoSettings)
    ensures
        settings == spec_go_settings(texts(args@)),
{
    let mut settings = GoSettings {
        wtime: u32::MAX,
        btime: u32::MAX,
        winc: 0,
        binc: 0,
        move_time: None,
        depth: None,
    };
    let ghost all = texts(args@);
    let mut i: usize = 1;
    while i < args.len()
        invariant
            1 <= i,
            all == texts(args@),
            spec_go_from(all, i as int, settings) == spec_go_settings(all),
        decreases args.len() - i,
    {
        proof {
            assert(all[i as int] == args[i as int]@);
        }
        let word = &args[i];
        let time = value_after(args, i, u32::MAX);
        let depth = value_after(args, i, 255);
        if word_is(word, "infinite") {
            settings.depth = Some(u8::MAX);
        } else if word_is(word, "wtime") && time.is_some() {
            settings.wtime = time.unwrap();
        } else if word_is(word, "btime") && time.is_some() {
            settings.btime = time.unwrap();
        } else if word_is(word, "winc") && time.is_some() {
            settings.winc = time.unwrap();
        } else if word_is(word, "binc") && time.is_some() {
            settings.binc = time.unwrap();
        } else if word_is(word, "movetime") && time.is_some() {
            settings.move_time = Some(time.unwrap());
        } else if word_is(word, "depth") && depth.is_some() {
            settings.depth = Some(depth.unwrap() as u8);
        }
        i = i + 1;
    }
    settings
}

/// The position after the move that `text` stands for in long algebraic
/// notation, if that move is legal and the counters have room for it.
pub open spec fn spec_play_step(pos: Position, keys: Seq<u64>, text: Seq<char>) -> Option<Position> {
    match spec_long_move(text, pos.squares) {
        Some(m) => {
            let legal = spec_legal_moves(pos);
            let j = first_same(legal, m, legal.len() as int);
            if pos.ready() && j < legal.len() {
                Some(pos.after_move(legal[j], keys))
            } else {
                None
            }
        },
        None => None,
    }
}

/// The position that the moves of `moves` from number `i` on lead to from
/// `pos`: the first that cannot be made ends the line, and the moves after
/// it are not made either.
pub open spec fn spec_play_from(pos: Position, keys: Seq<u64>, moves: Seq<Seq<char>>, i: int) -> Position
    decreases moves.len() - i,
{
    if i < 0 || i >= moves.len() {
        pos
    } else {
        match spec_play_step(pos, keys, moves[i]) {
            Some(next) => spec_play_from(next, keys, moves, i + 1),
            None => pos,
        }
    }
}

/// The position with the pieces `squares` and the state `state` at the
/// start of a game: rightly keyed, its key the only one of the history.
pub open spec fn fresh_position(squares: Seq<Option<Piece>>, state: State, keys: Seq<u64>) -> Position {
    let zobrist = ZobristHash(spec_hash_everything(keys, squares, state));
    Position { squares, state, zobrist, history: seq![zobrist] }
}

/// The position that a `position` command with the words `args` sets up
/// before any move, and the number of the word after it: the start position
/// for `startpos`, and for `fen` the position of the six words that follow,
/// if they stand for one that is well formed and sound. Nothing for any
/// other command.
pub open spec fn spec_position_base(args: Seq<Seq<char>>, keys: Seq<u64>) -> Option<(Position, int)> {
    if args.len() >= 2 && args[1] == "startpos"@ {
        Some(
            (
                fresh_position(
                    Seq::new(64, |s: int| crate::board::start_piece(s)),
                    State {
                        castling: Castling(0b1111),
                        en_passant: None,
                        half_moves: 0,
                        full_moves: 1,
                        turn: 0,
                        opponent: 1,
                    },
                    keys,
                ),
                2int,
            ),
        )
    } else if args.len() >= 8 && args[1] == "fen"@ {
        match spec_parse_fen(joined(args, 2, 8)) {
            Ok((squares, state)) => if sound(fresh_position(squares, state, keys)) {
                Some((fresh_position(squares, state, keys), 8int))
            } else {
                None
            },
            Err(_) => None,
        }
    } else {
        None
    }
}

/// The position after a `position` command with the words `args`,
/// `current` being the position before: the position that the command sets
/// up, with the moves after the word `moves` made as far as they can be; and
/// `current` if the command sets up none.
pub open spec fn spec_position_command(current: Position, args: Seq<Seq<char>>, keys: Seq<u64>) -> Position {
    match spec_position_base(args, keys) {
        Some((base, next)) => if next < args.len() && args[next] == "moves"@ {
            spec_play_from(base, keys, args, next + 1)
        } else {
            base
        },
        None => current,
    }
}

/// The position at the start of a game is sound: each side has its king,
/// and black's stands behind its pawns where nothing of white's attacks it.
pub proof fn lemma_start_position_sound(pos: Position)
    requires
        is_start_position(pos),
        pos.wf(),
    ensures
        sound(pos),
{
    let occ = pos.occupancy();
    assert(pos.has(4, 5, 0));
    assert(pos.has(60, 5, 1));
    assert(crate::moves::legality::one_king(pos, 0));
    assert(crate::moves::legality::one_king(pos, 1));
    crate::moves::legality::lemma_one_king_square(pos, 1, 60);
    assert forall|t: int| 0 <= t < 64 implies bit(occ, t) == pos.squares[t].is_some() by {
        lemma_board_of(|s: int| 0 <= s < 64 && pos.squares[s].is_some(), t);
    }
    assert forall|a: int| 0 <= a < 64 implies !#[trigger] attacks_from(pos, a, 60, 0) by {
        // white's pieces stand on the first two ranks
        if pos.has_color(a, 0) {
            assert(a < 16);
            assert(!knight_step(60, a));
            assert(!king_step(60, a));
            assert(!pawn_attacks(a, 60, 0));
            assert forall|d: int| 0 <= d < 8 implies !ray_attacks(occ, 60, d, a) by {
                if ray_attacks(occ, 60, d, a) {
                    let n = choose|n: int|
                        1 <= n < 8 && ray_on_board(60, d, n) && #[trigger] ray_square(60, d, n) == a
                            && ray_clear(occ, 60, d, n);
                    // the first step of every ray from e8 that stays on the
                    // board lands on a piece of black's
                    assert(n >= 2);
                    assert(ray_on_board(60, d, 1));
                    assert(bit(occ, ray_square(60, d, 1)));
                }
            }
        }
    }
}

/// The engine with its tables, its keys, its bot and the game.
pub struct UCIGame {
    pub move_gen_masks: MoveGenMasks,
    pub hasher: ZobristHasher,
    pub bot: Bot,
    pub board: Board,
}

impl UCIGame {
    /// The tables are right and the position of the game is well formed,
    /// sound and rightly keyed.
    pub open spec fn wf(&self) -> bool {
        &&& self.move_gen_masks.wf()
        &&& self.board.wf()
        &&& sound(self.board@)
        &&& self.board.hash_ok(&self.hasher)
    }

    /// The engine at the start of a game. `None` when a magic constant
    /// cannot address its table.
    pub fn new() -> (game: Option<Self>)
        ensures
            game.is_some() == constants_usable(),
            game matches Some(g) ==> g.wf() && is_start_position(g.board@),
    {
        let hasher = ZobristHasher::load();
        let move_gen_masks = match MoveGenMasks::load() {
            Some(masks) => masks,
            None => {
                return None;
            },
        };
        let board = Board::new(&hasher);
        proof {
            lemma_start_position_sound(board@);
        }
        Some(Self { move_gen_masks, hasher, bot: Bot::default(), board })
    }

    /// Makes the move that `text` stands for if it is legal and the
    /// counters have room, and says whether it did.
    pub fn play_move(&mut self, text: &Vec<char>) -> (made: bool)
        requires
            old(self).wf(),
        ensures
            final(self).wf(),
            final(self).hasher.keys() == old(self).hasher.keys(),
            final(self).bot == old(self).bot,
            match spec_play_step(old(self).board@, old(self).hasher.keys(), text@) {
                Some(next) => made && final(self).board@ == next,
                None => !made && final(self).board@ == old(self).board@,
            },
    {
        let ghost keys = self.hasher.keys();
        let ghost before = self.board@;
        proof {
            lemma_sound_has_kings(before);
        }
        match Move::from_long_chars(text, &self.board) {
            Some(move_to_make) => {
                if self.board.is_ready() {
                    proof {
                        let legal = spec_legal_moves(before);
                        let j = first_same(legal, move_to_make, legal.len() as int);
                        crate::board::lemma_first_same_bounds(legal, move_to_make, legal.len() as int);
                        if j < legal.len() {
                            assert(legal.contains(legal[j]));
                            lemma_legal_move_keeps_sound(before, legal[j], keys);
                        }
                    }
                    self.board.check_and_make_move(&move_to_make, &self.move_gen_masks, &self.hasher)
                } else {
                    false
                }
            },
            None => false,
        }
    }

    /// Plays the moves of `args` from number `from` on, as far as they can
    /// be made.
    fn play_moves(&mut self, args: &Vec<Vec<char>>, from: usize)
        requires
            old(self).wf(),
        ensures
            final(self).wf(),
            final(self).board@ == spec_play_from(
                old(self).board@,
                old(self).hasher.keys(),
                texts(args@),
                from as int,
            ),
            final(self).hasher.keys() == old(self).hasher.keys(),
            final(self).bot == old(self).bot,
    {
        let ghost keys = self.hasher.keys();
        let ghost all = texts(args@);
        let ghost goal = spec_play_from(self.board@, keys, all, from as int);
        let mut i: usize = from;
        let mut playing = true;
        while playing && i < args.len()
            invariant
                self.wf(),
                all == texts(args@),
                keys == self.hasher.keys(),
                self.bot == old(self).bot,
                playing ==> spec_play_from(self.board@, keys, all, i as int) == goal,
                !playing ==> self.board@ == goal,
            decreases
                args.len() - i + if playing {
                    1int
                } else {
                    0int
                },
        {
            proof {
                assert(all[i as int] == args[i as int]@);
            }
            if self.play_move(&args[i]) {
                i = i + 1;
            } else {
                playing = false;
            }
        }
    }

    /// Sets the position up that a `position` command with the words `args`
    /// asks for, and plays its moves; see `spec_position_command`. A command
    /// that sets up no position leaves the game as it is.
    pub fn uci_position(&mut self, args: &Vec<Vec<char>>)
        requires
            old(self).wf(),
        ensures
            final(self).wf(),
            final(self).hasher.keys() == old(self).hasher.keys(),
            final(self).bot == old(self).bot,
            final(self).board@ == spec_position_command(
                old(self).board@,
                texts(args@),
                old(self).hasher.keys(),
            ),
    {
        let ghost keys = self.hasher.keys();
        let ghost all = texts(args@);
        if args.len() < 2 {
            return ;
        }
        proof {
            assert(all[1] == args[1]@);
        }
        let next: usize;
        if word_is(&args[1], "startpos") {
            let board = Board::new(&self.hasher);
            proof {
                lemma_start_position_sound(board@);
                assert(board@ == fresh_position(
                    Seq::new(64, |s: int| crate::board::start_piece(s)),
                    board.state,
                    keys,
                ));
            }
            self.board = board;
            next = 2;
        } else if word_is(&args[1], "fen") && args.len() >= 8 {
            let fen_string = join(args, 2, 8);
            match Board::from_fen_chars(&fen_string, &self.hasher) {
                Ok(board) => {
                    proof {
                        assert(board@ == fresh_position(board@.squares, board.state, keys));
                    }
                    if !board.is_well_formed() || !board.is_sound(&self.move_gen_masks) {
                        return ;
                    }
                    self.board = board;
                },
                Err(_) => {
                    return ;
                },
            }
            next = 8;
        } else {
            return ;
        }
        if next < args.len() {
            proof {
                assert(all[next as int] == args[next as int]@);
            }
            if word_is(&args[next], "moves") {
                self.play_moves(args, next + 1);
            }
        }
    }

    /// Takes over what a `go` command with the words `args` asks for, and
    /// returns that with the time in milliseconds that the engine may think
    /// about its move.
    pub fn uci_go_settings(&mut self, args: &Vec<Vec<char>>) -> (plan: (GoSettings, u32))
        requires
            old(self).wf(),
        ensures
            final(self).wf(),
            final(self).board == old(self).board,
            final(self).hasher.keys() == old(self).hasher.keys(),
            plan.0 == spec_go_settings(texts(args@)),
            final(self).bot.time_control == (TimeControl {
                wtime: plan.0.wtime,
                btime: plan.0.btime,
                winc: plan.0.winc,
                binc: plan.0.binc,
                move_time: plan.0.move_time,
            }),
            final(self).bot.max_depth == (match plan.0.depth {
                Some(depth) => depth,
                None => old(self).bot.max_depth,
            }),
            plan.1 == crate::bots::time_control::spec_move_time(
                final(self).bot.time_control,
                old(self).board.state.turn,
            ),
    {
        let settings = go_settings(args);
        if let Some(depth) = settings.depth {
            self.bot.set_depth(depth);
        }
        let time_control = TimeControl::new(
            settings.wtime,
            settings.btime,
            settings.winc,
            settings.binc,
            settings.move_time,
        );
        self.bot.set_time_control(time_control);
        let time = self.bot.time_control.get_move_time(&self.board.state.turn);
        (settings, time)
    }

    /// Searches for the best move and makes it; see `Bot::get_best_move`.
    /// What the depths of the search tell of themselves is added to
    /// `reports`. No move is searched for, and none made, where the counters
    /// have no room for the search.
    pub fn uci_go(&mut self, stop: &mut StopToken, reports: &mut Vec<DepthReport>) -> (best: Option<
        Move,
    >)
        requires
            old(self).wf(),
        ensures
            old(self).board@.ready() && search_room(old(self).board@, old(self).bot.max_depth as int)
                && !final(stop).seen ==> final(reports)@ == old(reports)@ + spec_reports_from(
                old(self).board@,
                old(self).hasher.keys(),
                1,
                old(self).bot.max_depth as int,
            ),
            !(old(self).board@.ready() && search_room(
                old(self).board@,
                old(self).bot.max_depth as int,
            )) ==> final(reports)@ == old(reports)@,
            old(reports)@.is_prefix_of(final(reports)@),
            final(self).wf(),
            final(self).hasher.keys() == old(self).hasher.keys(),
            final(self).bot == old(self).bot,
            old(stop).seen ==> final(stop).seen,
            old(self).board@.ready() && search_room(old(self).board@, old(self).bot.max_depth as int)
                && !final(stop).seen ==> best == spec_best_move(
                old(self).board@,
                old(self).hasher.keys(),
                old(self).bot.max_depth as int,
            ),
            !(old(self).board@.ready() && search_room(
                old(self).board@,
                old(self).bot.max_depth as int,
            )) ==> best.is_none() && final(self).board@ == old(self).board@,
            old(self).board@.ready() && search_room(old(self).board@, old(self).bot.max_depth as int)
                ==> (exists|depth: int|
                0 <= depth <= old(self).bot.max_depth && best == #[trigger] spec_best_move(
                    old(self).board@,
                    old(self).hasher.keys(),
                    depth,
                )) && final(self).board@ == (match best {
                Some(m) => match spec_play_move(old(self).board@, old(self).hasher.keys(), m) {
                    Some(next) => next,
                    None => old(self).board@,
                },
                None => old(self).board@,
            }),
    {
        let ghost keys = self.hasher.keys();
        let ghost before = self.board@;
        let room = self.board.state.full_moves as u32 + self.bot.max_depth as u32 + 64 < 65535;
        if !(self.board.is_ready() && room) {
            return None;
        }
        proof {
            lemma_sound_has_kings(before);
        }
        let bot_move = self.bot.get_best_move(
            &mut self.board,
            &self.move_gen_masks,
            &self.hasher,
            stop,
            reports,
        );
        if let Some(found) = bot_move {
            proof {
                let legal = spec_legal_moves(before);
                let j = first_same(legal, found, legal.len() as int);
                crate::board::lemma_first_same_bounds(legal, found, legal.len() as int);
                if j < legal.len() {
                    assert(legal.contains(legal[j]));
                    lemma_legal_move_keeps_sound(before, legal[j], keys);
                }
            }
            self.board.check_and_make_move(&found, &self.move_gen_masks, &self.hasher);
        }
        bot_move
    }

    /// What the engine answers to `uci`: its name, its author, and that it
    /// is done.
    pub fn uci_uci(&self) -> (lines: Vec<String>)
        ensures
            lines@.len() == 3,
            lines@[0]@ == "id name rustier_chess"@,
            lines@[1]@ == "id author the rustier_chess authors"@,
            lines@[2]@ == "uciok"@,
    {
        let mut lines: Vec<String> = Vec::with_capacity(3);
        lines.push(String::from_str("id name rustier_chess"));
        lines.push(String::from_str("id author the rustier_chess authors"));
        lines.push(String::from_str("uciok"));
        lines
    }

    /// What the engine answers to `isready`.
    pub fn uci_is_ready(&self) -> (line: String)
        ensures
            line@ == "readyok"@,
    {
        String::from_str("readyok")
    }

    /// What the engine tells of a depth that it searched: the depth, and
    /// the depth that it will search up to.
    pub fn depth_line(report: &DepthReport, max_depth: u8) -> (line: String)
        ensures
            line@ == spec_depth_line(*report, max_depth),
    {
        let mut out: Vec<char> = Vec::new();
        push_text(&mut out, "info depth ");
        push_count(&mut out, report.depth as u64);
        push_text(&mut out, " seldepth ");
        push_count(&mut out, max_depth as u64);
        string_of(&out)
    }

    /// What the engine tells of a depth that it searched: the score in
    /// hundredths of a pawn, the depth, and the nodes.
    pub fn score_line(report: &DepthReport) -> (line: String)
        ensures
            line@ == spec_score_line(*report),
    {
        let mut out: Vec<char> = Vec::new();
        push_text(&mut out, "info score cp ");
        push_signed(&mut out, report.score);
        push_text(&mut out, " depth ");
        push_count(&mut out, report.depth as u64);
        push_text(&mut out, " nodes ");
        push_count(&mut out, report.nodes);
        string_of(&out)
    }

    /// What the engine answers once a search is done: `bestmove` and the
    /// move in long algebraic notation.
    pub fn best_move_line(best: &Move) -> (line: String)
        requires
            best.origin.on_board(),
            best.destination.on_board(),
            best.promotion_piece matches Some(p) ==> p < 4,
        ensures
            line@ == "bestmove "@ + crate::moves::moves_utils::spec_long_text(*best),
    {
        let mut line = String::from_str("bestmove ");
        let text = best.to_long_string();
        line.append(text.as_str());
        line
    }
}

/// The line that tells of the depth of `report`.
pub open spec fn spec_depth_line(report: DepthReport, max_depth: u8) -> Seq<char> {
    "info depth "@ + decimal_text(report.depth as nat) + " seldepth "@ + decimal_text(
        max_depth as nat,
    )
}

/// The line that tells of the score and the nodes of `report`.
pub open spec fn spec_score_line(report: DepthReport) -> Seq<char> {
    "info score cp "@ + signed_text(report.score as int) + " depth "@ + decimal_text(
        report.depth as nat,
    ) + " nodes "@ + decimal_text(report.nodes as nat)
}

/// The position after the legal move that is the same move as `m`, if
/// there is one.
pub open spec fn spec_play_move(pos: Position, keys: Seq<u64>, m: Move) -> Option<Position> {
    let legal = spec_legal_moves(pos);
    let j = first_same(legal, m, legal.len() as int);
    if j < legal.len() {
        Some(pos.after_move(legal[j], keys))
    } else {
        None
    }
}

} // verus!
