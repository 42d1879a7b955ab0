//! Semantic core of the Gale language: an arena-backed intermediate tree, a
//! bidirectional type checker, graph analyses and a tree-walking interpreter.
#![allow(non_upper_case_globals)]

pub mod collections;
pub mod data;
pub mod checker;
pub mod lowerer;
pub mod graph_checker;
pub mod interpreter;
pub mod utils;
pub mod tokenizer;
pub mod parser;
