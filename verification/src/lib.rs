#![allow(dead_code)]

pub mod board;
pub mod bots;
pub mod fen;
pub mod fen_round_trip;
pub mod game;
pub mod magic;
pub mod moves;
pub mod perft;
pub mod position;
pub mod types;
pub mod utils;
