//! The combination of the files of several mods into one tree.
//!
//! Every node of the tree stands for a path below the root. A node that
//! stands for a file holds the mods that provide that file, the mod of
//! highest priority first.

pub mod arena;
pub mod conflict;
pub mod laws;
pub mod merge;
pub mod providers;
pub mod source;
pub mod tree;

pub use self::conflict::{PathProbe, TreeBuildError};
pub use self::merge::{UnresolvedTreeBuildError, build_path_tree, merge_source};
pub use self::source::{ModSource, SourceEntry};
pub use self::providers::ModVec;
pub use self::tree::{FileTree, FileTreeDisplayKind, TreeNode, TreeNodeKind};
