//! A front end for the tape interface-definition language.
//!
//! Source text goes through three stages: characters become positioned atoms
//! (`atoms`), atoms become tokens (`tokens`), and tokens become a syntax tree
//! (`organisms`). Every stage records diagnostics instead of stopping at the
//! first problem; a fatal diagnostic ends the pipeline after its stage.

pub mod utils;
pub mod error;
pub mod cursor;
pub mod atoms;
pub mod tokens;
pub mod numbers;
pub mod grammar;
pub mod organisms;
pub mod pipeline;
