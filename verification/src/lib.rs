//! The rules of shogi and a search for mate, verified.
//!
//! * `types`: colors, kinds of pieces, squares, moves.
//! * `board`: the geometry of the board and how each kind of piece moves.
//! * `bitboard`: sets of squares, and the squares a piece attacks as a set.
//! * `position`: what stands where and who moves; what a move does to it;
//!   which moves are legal.
//! * `movegen`: the legal moves of a position.
//! * `zobrist`: the hash of a position.
//! * `state`: a game, with its history, its hash and its repetitions.
//! * `solver`: mate in one, mate by exhaustive search, mate by proof numbers.
//! * `sfen`, `csa`, `io`, `text`: the two notations.
//! * `ml`: feature planes and the index of a move.
pub mod bitboard;
pub mod board;
pub mod csa;
pub mod io;
pub mod ml;
pub mod movegen;
pub mod position;
pub mod sfen;
pub mod solver;
pub mod state;
pub mod text;
pub mod types;
pub mod zobrist;
