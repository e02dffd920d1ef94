//! Management of isolated Windows-compatibility prefixes: architecture
//! detection, executable discovery, environment composition, hook sequencing
//! and launch planning.
//!
//! Nothing in this crate touches the file system or starts a process. Every
//! operation that needs the outside world is split into a decision, made here,
//! and an observation, handed in by the caller as a plain value.

pub mod application;
pub mod arch;
pub mod command;
pub mod config;
pub mod env;
pub mod error;
pub mod hook;
pub mod input;
pub mod launch;
pub mod name_map;
pub mod path;
pub mod prefix;
pub mod scan;
pub mod scan_laws;
pub mod scan_model;
pub mod selection;
pub mod text;
pub mod tree;
