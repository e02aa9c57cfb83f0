//! A bitboard chess engine core: attack tables, magic lookups, move generation,
//! make-move, evaluation and alpha-beta search.
pub mod bitboard;
pub mod structs;
pub mod geometry;
pub mod chess_data;
pub mod magics;
pub mod move_generation;
pub mod fen;
pub mod engine;
pub mod laws;
pub mod magic_search;
pub mod notation;
pub mod attacks;
