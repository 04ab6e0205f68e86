//! A verified Ultimate Tic-Tac-Toe move-generation engine.
//!
//! The crate enumerates all reachable game states down to a fixed depth
//! (a perft-style node count) over a bitboard representation with
//! incrementally maintained status caches.  Every operation carries a
//! contract relating it to a mathematical model of the board, and the
//! make/undo round trip is proved to restore the exact pre-move state.

pub mod board;
pub mod model;
pub mod oracle;
pub mod perft;

pub use board::Bitboard;
pub use model::BoardV;
pub use model::FieldStatus;
pub use model::Move;
pub use model::Pos;
pub use oracle::is_tied;
pub use oracle::is_won;
pub use oracle::WinTable;
pub use perft::move_gen;
pub use perft::move_gen_impl;
