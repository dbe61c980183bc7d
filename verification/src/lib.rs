//! A chess rules and attack-geometry engine paired with a fixed-depth negamax
//! search. The geometry side provides square and bitboard algebra, attack sets
//! for every piece, and ray queries between squares; the search side provides
//! negamax with alpha-beta pruning, a capture-only quiescence search, and draw
//! detection over a bounded history of position hashes.

pub mod bitboard;
pub mod color;
pub mod engine;
pub mod eval;
pub mod game;
pub mod history;
pub mod mini;
pub mod moves;
pub mod piece;
pub mod position;
pub mod rng;
pub mod square;
pub mod wasm4;
