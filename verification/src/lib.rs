//! A codec for Forsyth–Edwards Notation, the one-line record of a chess
//! position.
//!
//! `notation` says what a record means, as mathematics on sequences of
//! characters. `board` holds the position and the decoder, `to_fen` the
//! encoder; both are proved against `notation`. `laws` proves that the two
//! are inverse to each other on canonical records.

pub mod board;
pub mod decimal;
pub mod error;
pub mod laws;
pub mod notation;
pub mod pieces;
pub mod text;
pub mod to_fen;
