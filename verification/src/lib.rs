//! Command-history assistant library.
//!
//! Mines a window of recent shell commands for frequently used ones, ranks
//! them, and maintains a registry of commands that can be listed, searched,
//! and edited. The ranking engine and the selection-expression parser are the
//! algorithmic core; persistence and console interaction stay outside.

pub mod text;

pub mod history;
pub mod suggest;
pub mod registry;
pub mod doctor;
pub mod search;
pub mod selection;
