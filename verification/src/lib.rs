//! Manage a repository as a bare clone surrounded by Git worktrees.
pub mod bytes;
pub mod cli;
pub mod text;
pub mod error;
pub mod git;
pub mod path;
pub mod fsx;
pub mod limits;
pub mod order;
pub mod grove;
pub mod hooks;
pub mod output;
pub mod policy;
pub mod commands;
