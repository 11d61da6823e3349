//! A verified core for a multi-threaded file backup tool.
//!
//! The library decides what a backup run does: which source paths are
//! walked, where every file is copied, which directories are staged and
//! swapped into place, and how failures are reported. The program around it
//! performs the file-system work and hands the outcomes back.

pub mod backup;
pub mod config;
pub mod constants;
pub mod coverage;
pub mod errors;
pub mod files;
pub mod logs;
pub mod paths;
pub mod pattern;
pub mod structs;
pub mod traverse;
