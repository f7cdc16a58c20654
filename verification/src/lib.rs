//! Core of a grid game: a body of cells moves across a bounded rectangular
//! area one tick at a time, dies on walls or on itself, and grows by eating
//! food that respawns on a free interior cell.

pub mod area;
pub mod collision;
pub mod engine;
pub mod point;
pub mod queue;
mod rng;
