//! A Connect Four rule engine: board state, move validation, and win
//! detection, with machine-checked contracts for every operation.
#![allow(non_snake_case)]

pub mod board;
pub mod game;
