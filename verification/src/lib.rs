//! Deterministic source formatting across languages.

pub mod chars;
pub mod text;
pub mod whitespace;
pub mod fspath;
pub mod license;
pub mod globs;
pub mod git;
pub mod config;
pub mod paths;
pub mod snapshot;
pub mod catalog;
pub mod pipeline;
pub mod cache;
pub mod calendar;
pub mod units;
pub mod formatters;
pub mod hook;
pub mod commands;
pub mod summary;
pub mod cli;
pub mod artifacts;
pub mod init;
pub mod detekt;
pub mod gradle_dependencies;
pub mod upgrade;
pub mod reports;
pub mod references;
