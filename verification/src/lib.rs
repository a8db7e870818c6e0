//! A bitboard chess move generator and search engine.

pub mod bits;
pub mod piece;
pub mod position;
pub mod board_repr;
pub mod board;
pub mod moving;
pub mod zobrist;
pub mod fen;
pub mod search_masks;
mod text;
pub mod magic_bitboards;
pub mod hashers;
pub mod tables;
pub mod search_data;
pub mod search;
pub mod perft_data;
pub mod perft;
pub mod pseudo_moving;
pub mod engine;
pub mod uci;
pub mod ffi;
