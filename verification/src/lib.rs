//! A chess rules engine: board state, FEN encoding and decoding, fully legal
//! move generation, attack computation, move application, and game-status
//! classification, with machine-checked contracts throughout.

pub mod attacks;
pub mod board;
pub mod codec;
pub mod fen;
pub mod laws;
pub mod movegen;
pub mod moves;
pub mod piece;
pub mod rules;
pub mod text;

pub use board::Board;
pub use board::GameStatus;
pub use board::Square;
pub use fen::CastleFlags;
pub use fen::ParseFenError;
pub use moves::Move;
pub use moves::MoveError;
pub use piece::Color;
pub use piece::Piece;
pub use piece::PieceKind;
