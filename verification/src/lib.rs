pub mod ai;
pub mod errors;
pub mod game;
