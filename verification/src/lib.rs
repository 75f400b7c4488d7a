//! A small chess engine: board and move model, per-piece move generation,
//! pure move application, static evaluation, and a negamax search with
//! alpha-beta pruning, together with the draw rules of the game loop.

pub mod bitboard;
pub mod board;
pub mod engine;
pub mod fen;
pub mod pieces;
pub mod play;
pub mod players;
