//! A small chess engine core: bitboard positions, pseudo-legal move
//! generation, move application, legality filtering, material evaluation
//! and a fixed-depth minimax search.
pub mod board;
pub mod evaluate;
pub mod generate_moves;
pub mod move_piece;
pub mod notation;
pub mod search;
