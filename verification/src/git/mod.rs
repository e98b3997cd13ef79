//! Talking to Git and to the hosting providers' command-line tools.
pub mod answers;
pub mod runner;
pub mod course;
pub mod config;
pub mod query;
pub mod remote;
pub mod worktrees;
pub mod fetch;
pub mod provider;
pub mod guard;
