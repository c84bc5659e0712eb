//! A chess rules engine: board model, move generation with a legality
//! filter, move application, and end-of-game detection.

pub mod bitboard;
pub mod text;
pub mod square;
pub mod piece;
pub mod rules;
pub mod movegen;
pub mod encoding;
pub mod position;
pub mod fen;
pub mod game;
pub mod laws;
pub mod fen_laws;

pub use square::Square;
pub use piece::{Piece, PieceType, PieceColor, ChessResult};
pub use game::Game;
