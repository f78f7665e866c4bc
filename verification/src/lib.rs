//! Version bookkeeping for several Typst installations on one machine:
//! version strings, the binary cache, configuration lookups and the
//! decisions that pick which Typst to run with which environment.

pub mod text;
pub mod cache;
pub mod config;
pub mod process;
pub mod args;
pub mod select;
pub mod listing;
pub mod laws;
