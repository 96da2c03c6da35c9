//! How long the engine may think about a move.

use vstd::prelude::*;
use crate::types::piece::Color;

verus! {

/// The clock as the interface reports it, all in milliseconds: the time
/// left and the increment for a move of each side, and the time for this
/// move if it is fixed.
pub struct TimeControl {
    pub wtime: u32,
    pub btime: u32,
    pub winc: u32,
    pub binc: u32,
    pub move_time: Option<u32>,
}

/// The time for the move of the side `turn`: the fixed time if there is
/// one, else a fortieth of the time left plus half the increment.
pub open spec fn spec_move_time(control: TimeControl, turn: usize) -> int {
    match control.move_time {
        Some(move_time) => move_time as int,
        None => if turn == 0 {
            control.wtime / 40 + control.winc / 2
        } else {
            control.btime / 40 + control.binc / 2
        },
    }
}

/// A clock that never runs out.
pub open spec fn spec_max_time() -> TimeControl {
    TimeControl {
        wtime: u32::MAX,
        btime: u32::MAX,
        winc: u32::MAX,
        binc: u32::MAX,
        move_time: Some(u32::MAX),
    }
}

impl TimeControl {
    pub fn new(wtime: u32, btime: u32, winc: u32, binc: u32, move_time: Option<u32>) -> (control:
        Self)
        ensures
            control == (TimeControl { wtime, btime, winc, binc, move_time }),
    {
        Self { wtime, btime, winc, binc, move_time }
    }

    /// The time for the move of the side `turn`, white for `Color::WHITE` and
    /// black for any other value.
    pub fn get_move_time(&self, turn: &usize) -> (time: u32)
        ensures
            time == spec_move_time(*self, *turn),
    {
        if let Some(move_time) = self.move_time {
            return move_time;
        }
        if *turn == Color::WHITE {
            return self.wtime / 40 + self.winc / 2;
        }
        self.btime / 40 + self.binc / 2
    }

    /// A clock that never runs out.
    pub fn max() -> (control: Self)
        ensures
            control == spec_max_time(),
    {
        Self {
            wtime: u32::MAX,
            btime: u32::MAX,
            winc: u32::MAX,
            binc: u32::MAX,
            move_time: Some(u32::MAX),
        }
    }

    pub fn set_move_time(&mut self, move_time: u32)
        ensures
            *final(self) == (TimeControl { move_time: Some(move_time), ..*old(self) }),
    {
        self.move_time = Some(move_time);
    }
}

} // verus!
