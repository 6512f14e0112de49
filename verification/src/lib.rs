pub mod dictionary;
pub mod game;
