//! Incremental extraction of a DNS query log into newline-delimited text.
//!
//! The library is the verified core of a pull-based exporter: a cursor
//! (the identifier of the last delivered row) gates which rows of the
//! source are eligible, each eligible row is rendered as one
//! comma-separated line, and the cursor advances to the largest
//! identifier delivered.  Reading the cursor file, running the database
//! query and writing the cursor back are edge I/O performed by the
//! surrounding application; every decision between those steps is made
//! here, under contract.

pub mod config;
pub mod digits;
pub mod handler;
pub mod laws;
pub mod record;
