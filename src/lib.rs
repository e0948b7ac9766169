//! A registry of named shell commands ("apps"): the in-memory collection with
//! its create, update, delete and lookup operations, the rules that rebuild it
//! from a stored snapshot, and the reports that a launch of a command yields.
//!
//! Locking, file access, process execution and HTTP live with the caller:
//! this crate decides, the caller performs.

pub mod launch;
pub mod model;
pub mod registry;
