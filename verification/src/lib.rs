//! `scriv`'s decisions — which branch a name means, what a history file holds,
//! how a note names itself — as functions with contracts.

pub mod text;
pub mod git;
pub mod path;
pub mod config;
pub mod history;
pub mod gh;
pub mod term;
pub mod note;
pub mod clock;
pub mod proc;
pub mod files;
pub mod binding;
pub mod logger;
pub mod ctx;
pub mod discover;
pub mod cmd;
pub mod select;

pub use ctx::{Ctx, Reported};
