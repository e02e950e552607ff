//! The decisions the commands make around the I/O they do: which path a new
//! note or worktree goes to, how a row is laid out, what a check reports.

pub mod note;
pub mod worktree;
pub mod branch;
pub mod repo;
pub mod config;
pub mod project;
pub mod pr;
pub mod file;
pub mod history;
pub mod report;
pub mod proc;
pub mod edit;
