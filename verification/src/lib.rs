pub mod board;
pub mod game;
pub mod laws;
pub mod pieces;
pub mod rules;

pub use crate::board::{create_test_board, Board};
pub use crate::game::{EndResult, Game, TurnResult};
pub use crate::pieces::{Color, Kind, Piece, Point};
