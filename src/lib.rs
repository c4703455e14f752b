//! Deduplicates the lines of a shell history file, keeping the first
//! occurrence of each line, and describes the backup / write / cleanup or
//! rollback protocol that replaces the file without ever losing it.

pub mod config;
pub mod lines;
pub mod protocol;
pub mod paths;
