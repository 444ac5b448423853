//! Index a talker pack: a directory of voice samples is turned into a table
//! with one row for each sample, and a two-line descriptor naming the talker.
//!
//! The crate holds the rules and leaves the file system to its caller: paths
//! come in as sequences of names, tables and descriptors go out as bytes.

pub mod path;
pub mod text;
pub mod record;
pub mod builder;
pub mod table;
pub mod reading;
pub mod scanner;
pub mod descriptor;
pub mod rerun;
