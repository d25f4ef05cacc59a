//! A falling-sand automaton: a grid of cells, each empty or holding one
//! material, advanced one tick at a time by the ordered movement rules of
//! the materials in a catalog.

pub mod brush;
pub mod game;
pub mod grid;
pub mod laws;
pub mod materials;
