//! Template-variable substitution: replaces placeholders of the form
//! `%{{identifier}}` in a text with values produced by a caller-supplied
//! mapping function.
//!
//! The token grammar, the scan, and the assembly of the output are all
//! specified over sequences of characters and proved against those
//! specifications.

pub mod engine;
pub mod laws;
pub mod strip;
mod text;
pub mod token;

pub use engine::replace_variables;
pub use strip::remove_var_delimiters;
