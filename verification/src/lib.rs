//! Tracking of `TODO:` lines in source files through an issue tracker: new `TODO:`
//! lines are reported as issues and tagged with their numbers, and tagged lines whose
//! issues are closed are removed again.

pub mod cli;
pub mod commands;
pub mod config;
pub mod dir;
pub mod helpers;
pub mod issue;
pub mod patterns;
pub mod text;
pub mod todo;
pub mod trackers;
