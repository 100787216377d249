//! HQL v0: read-only pipes over a snapshot of the store.

pub mod row;
pub mod rows;
pub mod yaml;
pub mod expr;
pub mod fluent;
pub mod laws;
pub mod op_laws;
pub mod pipe;
pub mod query;
pub mod ops;
pub mod states;
pub mod walk;
pub mod walk_laws;
pub mod run;
pub mod cli;
