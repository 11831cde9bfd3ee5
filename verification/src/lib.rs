//! A square grid maze for a navigating agent, and a graph over it that a
//! path search can query for moves and cost estimates.

pub mod graph;
pub mod types;
