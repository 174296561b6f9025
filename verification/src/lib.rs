//! A verified Gomoku (five-in-a-row) decision engine.
//!
//! The crate models a square board of `GRID_SIZE + 1` intersections per
//! axis, detects five co-linear same-owner stones, enumerates candidate
//! moves near existing stones, scores positions with a pattern-window
//! heuristic, and chooses moves by depth-bounded minimax search with
//! alpha-beta pruning and move ordering.

pub mod agent;
pub mod evaluator;
pub mod game;
pub mod heuristic;
pub mod moves;
pub mod ordering;
pub mod search;
pub mod symmetry;
pub mod victory;
