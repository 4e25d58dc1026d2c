//! Exhaustive solver for square edge-matching jigsaw puzzles.
//!
//! A puzzle is a pool of square pieces with a shaped edge on each side. The
//! pieces are laid one after the other on the points of a grid, each in one
//! of four rotations; a state is valid when all edges that touch fit each
//! other. The search walks through all valid states depth first and reports
//! every valid state in which all pieces are laid.

pub mod field;
pub mod filtering;
pub mod geometry;
pub mod grid;
pub mod piece;
pub mod reordering;
pub mod search;
pub mod solutions;
pub mod state;
