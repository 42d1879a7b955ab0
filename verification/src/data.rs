//! The data the passes exchange: types, runtime values and the two trees.

pub mod hlr_ast;
pub mod mlr_ast;
pub mod types;
pub mod values;
