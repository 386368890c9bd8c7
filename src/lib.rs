//! Discrete-time 2D collision geometry and simulation pipeline for a
//! two-paddle arcade arena, in fixed-point integer coordinates.
pub mod game;
pub mod geometry;
pub mod physics;
pub mod types;
