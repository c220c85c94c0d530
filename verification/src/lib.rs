//! A verified core of a fewest-moves 3x3x3 cube solver: move and algorithm
//! values with parsing and rendering, coordinate encoders for the half-turn
//! reduction stage, move-set transition tables, and the configuration layer
//! that assembles the solve pipeline's finish stage.

pub mod algs;
pub mod config;
pub mod coords;
pub mod cube;
pub mod finish;
pub mod moveset;
pub mod solver;
pub mod steps;
