//! Generic containers the passes are built on.

pub mod flat_tree;
pub mod graph;
pub mod name_map;
