//! Helpers around the passes.

pub mod graphviz;
