//! Anglerfry, a small UCI chess engine: the protocol's parsing and decisions, the time
//! management of a search and the ways a move is picked.

pub mod chess;
pub mod search;
pub mod clock;
pub mod span;
pub mod strategy;
pub mod text;
pub mod uci;
