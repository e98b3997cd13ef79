//! Decisions about the file system: what a path may be, what a file is, and in which order a
//! file is put in place.
pub mod below;
pub mod directory;
pub mod files;
pub mod held;
pub mod lock;
pub mod looking;
pub mod mountinfo;
pub mod nonce;
pub mod write;
pub mod durable;
