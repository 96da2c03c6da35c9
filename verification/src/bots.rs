pub mod bot;
pub mod mate;
pub mod negamax;
pub mod pesto;
pub mod stop;
pub mod time_control;
pub mod transposition;
