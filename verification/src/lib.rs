//! A compositional read/write set analysis for stackless bytecode.
//!
//! For every procedure the analysis computes which memory locations the
//! procedure may borrow, read or write, and which addresses its return values
//! may hold. Summaries are expressed relative to the formals of the procedure
//! and are substituted into the state of a caller at each call site.

pub mod abs_addr;
pub mod access;
pub mod access_path;
pub mod analysis;
pub mod bytecode;
pub mod cache;
pub mod control_flow;
pub mod display;
pub mod domain;
pub mod error;
pub mod laws;
pub mod native;
pub mod path_map;
pub mod processor;
pub mod state;
pub mod summary;
pub mod types;
