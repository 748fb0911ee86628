//! A table reader driven by a declarative description of the table: where
//! it stands, which rows to keep, how to name its columns.

pub mod types;
pub mod engine;
