//! Unit selection, destination allocation, path planning and movement on a
//! hexagonal grid.
//!
//! Everything here works on discrete values: lattice cells, flags and queues.
//! Continuous world positions stay with the caller, who converts a position to
//! its cell before a call and a cell to its centre afterwards.

pub mod colony;
pub mod hex;
pub mod lattice;
pub mod planner;
pub mod selection;
pub mod units;
