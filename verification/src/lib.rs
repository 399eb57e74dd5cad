//! Storage access for an editor shell: a sandboxed, workspace-rooted view of
//! the file system and a bounded text and file-name search over it.
//!
//! Nothing here reads or writes: callers touch the disk and hand the library
//! plain values, and the library decides what is allowed, what matches and in
//! what order results are reported.

pub mod error;
pub mod events;
pub mod globs;
pub mod matcher;
pub mod order;
pub mod output;
pub mod path;
pub mod pattern;
pub mod search;
pub mod sse;
pub mod system;
pub mod text;
pub mod vfs;
