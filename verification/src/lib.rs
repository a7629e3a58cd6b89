//! Core logic of a mod manager: the persisted instance model, the merge of
//! per-mod file trees into one priority-ordered tree, the staging plan derived
//! from it, and the invariant-preserving edits of an instance.

pub mod deploy;
pub mod edit;
pub mod file_tree;
pub mod instance;
pub mod mods;
pub mod mount;
pub mod namespace;
pub mod staging;
pub mod text;
pub mod util;
pub mod writer;
