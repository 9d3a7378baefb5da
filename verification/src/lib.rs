//! Move resolution for a puzzle played on a recursive grid.
//!
//! Cells live inside blocks, blocks may live inside other blocks (or inside
//! themselves, through references), and one press of a direction key is
//! resolved into a consistent movement of every cell that it affects.

pub mod engine;
