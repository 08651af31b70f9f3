//! Keeps a pair of machines in sync and moves large files from one to the other.

pub mod config;
pub mod daemon;
pub mod net;
pub mod offload;
pub mod path;
pub mod sync;
pub mod text;
