//! Rules engine of a two-player dice-and-cards game on a small hex or square grid.

pub mod ai;
pub mod board;
pub mod card;
pub mod cells;
pub mod console;
pub mod convert;
pub mod coord;
pub mod game;
pub mod generator;
pub mod grid;
pub mod invariants;
pub mod layout;
pub mod parsers;
pub mod perft;
pub mod play;
pub mod reversal;
pub mod rules;
pub mod sequences;
pub mod stock;
pub mod triples;
pub mod wins;
