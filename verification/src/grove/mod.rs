//! A grove: a bare repository in `.bare`, a `.git` pointer beside it, and worktrees around it.
pub mod observed;
pub mod discover;
pub mod metadata;
pub mod state;
pub mod layout;
pub mod guide;
