//! A library for managing named "routines": declarative descriptions of a
//! directory that is versioned and synchronized through a Git repository.
//!
//! The library has two coupled subsystems: the synchronization engine, which
//! turns a routine's declared directory into a Git commit, and the routine
//! registry, which resolves logical names to canonical routine-definition
//! files and keeps that index consistent with the filesystem.

pub mod errors;
pub mod text;
pub mod gitops;
pub mod fsops;
pub mod glob;
pub mod routine;
pub mod codec;
pub mod registry;
pub mod cli;
pub mod config;
pub mod engine;
pub mod info;
