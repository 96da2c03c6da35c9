pub mod bits;
pub mod square;
pub mod bitboard;
pub mod bitmap;
pub mod piece;
pub mod state;
