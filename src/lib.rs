//! Resolution and acquisition core of a package manager for Celeste mods:
//! dependency closure, registry queries, mirror failover, checksum-verified
//! downloads and a bounded download pool.

pub mod checksum;
pub mod cli;
pub mod download;
pub mod error;
pub mod graph;
pub mod install;
pub mod local;
pub mod manifest;
pub mod mirror;
pub mod pool;
pub mod registry;
pub mod text;
pub mod update;
pub mod util;
