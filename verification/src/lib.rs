//! A snapshot of the environment variables that drive an instrumented
//! `cargo` / `rustc` build, taken from an explicit table of variables.
//!
//! [`table::EnvTable`] stands for the variables of a process. [`env::Env::new`]
//! reads the tracked variables from such a table, forces the build mode that
//! coverage needs onto it, and returns the values it captured.

pub mod env;
pub mod table;
pub mod text;
