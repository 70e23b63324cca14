//! Mirrors watched directories into a Git working tree: the decisions of the
//! synchronisation pipeline, stated and proved, with the file system and the
//! repository kept behind the caller.

pub mod clock;
pub mod config;
pub mod debounce;
pub mod error;
pub mod event;
pub mod git;
pub mod mirror;
pub mod model;
pub mod path;
pub mod sync_loop;
