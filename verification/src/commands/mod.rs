//! The commands.
pub mod publish;
pub mod publish_push;
pub mod publish_laws;
pub mod publish_run;
pub mod publish_results;
pub mod publish_create;
pub mod create_laws;
pub mod create_results;
pub mod setup;
pub mod setup_laws;
pub mod setup_run;
pub mod add;
pub mod add_laws;
pub mod adopt;
pub mod init;
pub mod init_laws;
pub mod making;
pub mod guarded;
pub mod clone;
pub mod clone_names;
pub mod clone_run;
pub mod clone_laws;
pub mod list;
pub mod sync;
pub mod sync_laws;
pub mod sync_results;
pub mod guard_laws;
pub mod hook_guard;
