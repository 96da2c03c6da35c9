pub mod geometry;
pub mod legality;
pub mod move_mask_gen;
pub mod moves_calculation;
pub mod moves_utils;
