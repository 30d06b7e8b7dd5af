//! Constraint-driven grid generation: a bounded 2D grid, a small language of
//! spatial rules evaluated relative to a cursor, and a randomized backtracking
//! solver that fills the grid, placing a value only where its rule holds.
pub mod pos;
pub mod grid;
pub mod collapse_rules;
pub mod solver;
mod frontier;
pub mod collapse;
mod measure;

pub use grid::{Grid, GridView};
pub use pos::Pos;
pub use collapse::{collapse, initialize};
pub use collapse_rules::{CollapseRule, check_rule};
pub use solver::collapse_rule;
