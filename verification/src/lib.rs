//! A puzzle engine: a square grid of columns is shown next to several
//! top-down wireframe nets, exactly one of which is the grid's own outline.
//!
//! The crate holds the grid, the projection of a grid to its net, the
//! structural comparison of nets, the generation of a round of pairwise
//! distinct nets, and the per-frame state machine of a session with its
//! countdown and streak. Beside these stand the whole-number parts of the
//! presentation: the drawing order of shapes, the joining of their meshes,
//! and the digits of a counter.

pub mod config;
pub mod random;
pub mod columngrid;
pub mod net;
pub mod game;
pub mod geometry;
pub mod number;
