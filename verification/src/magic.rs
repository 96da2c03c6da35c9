pub mod magic_generation;
pub mod magics;
