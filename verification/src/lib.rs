//! Verified parts of a deduplicating backup repository and of its fault tests.

pub mod archiver;
pub mod backend;
pub mod buffer;
pub mod cache;
pub mod cached;
pub mod counters;
pub mod coverage;
pub mod error;
pub mod fault;
pub mod file_type;
pub mod fixtures;
pub mod id;
pub mod in_memory;
pub mod index;
pub mod logging;
pub mod model;
mod observe;
pub mod paths;
pub mod plan;
pub mod rng;
pub mod runner;
pub mod scenarios;
pub mod sorted;
pub mod state;
pub mod text;
pub mod tree_path;
pub mod tree_spec;
pub mod volume;
