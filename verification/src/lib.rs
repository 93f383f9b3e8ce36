//! The tool surface of the ecp demo service: the read-only subset of the
//! tools that `ecp` describes, the argv that a tool call becomes, and
//! the guards that stand between a visitor's JSON and a spawned process.

pub mod json;
pub mod text;
pub mod argv;
pub mod tools;
pub mod spawn;
pub mod laws;

pub use json::{Json, JsonV};
