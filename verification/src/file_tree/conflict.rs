//! The error that is reported where building the tree failed, with the
//! mods that are party to a conflict known by name.

use vstd::prelude::*;
use vstd::string::*;
use crate::file_tree::merge::{MergeFault, UnresolvedTreeBuildError};
use crate::file_tree::tree::TreePath;
use crate::instance::{ModDeclaration, ModEntryKind, ModIndex};
use crate::text::{join_names, joined_names, names_view};

verus! {

/// Error type returned where building the tree failed.
#[derive(Debug, Clone, PartialEq, Eq)]
pub enum TreeBuildError {
    /// A directory of a mod could not be read; the message says why.
    Io(String),
    /// A path is a file in one mod and a directory in another; the message
    /// names the path and the mods.
    TypeMismatch(String),
}

/// What a [`TreeBuildError`] says.
pub enum TreeBuildErrorView {
    Io(Seq<char>),
    TypeMismatch(Seq<char>),
}

impl View for TreeBuildError {
    type V = TreeBuildErrorView;

    open spec fn view(&self) -> TreeBuildErrorView {
        match self {
            TreeBuildError::Io(message) => TreeBuildErrorView::Io(message@),
            TreeBuildError::TypeMismatch(message) => TreeBuildErrorView::TypeMismatch(message@),
        }
    }
}

impl TreeBuildError {
    /// The error in words.
    pub fn message(&self) -> (r: &String)
        ensures
            r@ == (match self@ {
                TreeBuildErrorView::Io(message) => message,
                TreeBuildErrorView::TypeMismatch(message) => message,
            }),
    {
        match self {
            TreeBuildError::Io(message) => message,
            TreeBuildError::TypeMismatch(message) => message,
        }
    }
}

/// What was found at the path of a conflict in the directory of a mod.
#[derive(Copy, Clone, Debug, PartialEq, Eq, Structural)]
pub struct PathProbe {
    /// The mod whose directory was looked into.
    pub mod_index: ModIndex,
    /// Whether a directory was found there. What is no directory counts as a
    /// file.
    pub is_dir: bool,
}

/// Whether the mod of a probe is party to the conflict that the mod
/// `mod_index` ran into with an entry that is a directory or not, as
/// `is_dir` says: it is another mod, one with files, in which the path is
/// the other of the two.
pub open spec fn probe_conflicts(
    mods: Seq<ModDeclaration>,
    probe: PathProbe,
    mod_index: ModIndex,
    is_dir: bool,
) -> bool {
    probe.mod_index != mod_index && probe.mod_index.0 < mods.len() && mods[probe.mod_index.0 as int].kind
        == ModEntryKind::Mod && probe.is_dir != is_dir
}

/// The names of the mods that are party to a conflict, in the order of the
/// probes.
pub open spec fn conflicting_names(
    mods: Seq<ModDeclaration>,
    probes: Seq<PathProbe>,
    mod_index: ModIndex,
    is_dir: bool,
) -> Seq<Seq<char>>
    decreases probes.len(),
{
    if probes.len() == 0 {
        Seq::empty()
    } else {
        let before = conflicting_names(mods, probes.drop_last(), mod_index, is_dir);
        if probe_conflicts(mods, probes.last(), mod_index, is_dir) {
            before.push(mods[probes.last().mod_index.0 as int].name@)
        } else {
            before
        }
    }
}

/// What a path is in a mod, in words.
pub open spec fn kind_word(is_dir: bool) -> Seq<char> {
    if is_dir {
        "directory"@
    } else {
        "file"@
    }
}

/// The message for a conflict at the entry called `name`, which is a
/// directory or not in the mod `mod_name`, as `is_dir` says, and the other
/// of the two in the mods `others`.
pub open spec fn mismatch_message(
    name: Seq<char>,
    is_dir: bool,
    mod_name: Seq<char>,
    others: Seq<Seq<char>>,
) -> Seq<char> {
    "'"@ + name + "' is used as both a directory and a file by different mods: it's a "@
        + kind_word(is_dir) + " in '"@ + mod_name + "', but a "@ + kind_word(!is_dir) + " in '"@
        + joined_names(others, "', '"@) + "'"@
}

/// The name of the entry at a path: the last name of the path, or that of
/// the root.
pub open spec fn name_at(path: TreePath) -> Seq<char> {
    if path.len() > 0 {
        path.last()
    } else {
        "."@
    }
}

/// The name of the mod at `mod_index`, or no name where there is no such
/// mod.
pub open spec fn mod_name_at(mods: Seq<ModDeclaration>, mod_index: ModIndex) -> Seq<char> {
    if mod_index.0 < mods.len() {
        mods[mod_index.0 as int].name@
    } else {
        Seq::empty()
    }
}

/// Whether the directory of the mod `target` is to be looked into for the
/// path of a fault: the fault is a conflict, and the mod is a mod with files
/// other than the one that ran into the conflict.
pub open spec fn is_probe_target(mods: Seq<ModDeclaration>, fault: MergeFault, target: ModIndex) -> bool {
    &&& fault is Conflict
    &&& target != fault->Conflict_mod_index
    &&& target.0 < mods.len()
    &&& mods[target.0 as int].kind == ModEntryKind::Mod
}

/// A word for what a path is in a mod.
fn word_for(is_dir: bool) -> (r: &'static str)
    ensures
        r@ == kind_word(is_dir),
{
    if is_dir {
        "directory"
    } else {
        "file"
    }
}

impl UnresolvedTreeBuildError {
    /// The mods whose directories are to be looked into for the path of a
    /// conflict: every mod with files but the one that ran into the
    /// conflict, in the order of the mod list. There are none for another
    /// error.
    pub fn mods_to_probe(&self, mods: &Vec<ModDeclaration>) -> (r: Vec<ModIndex>)
        ensures
            forall|i: int|
                0 <= i < r@.len() ==> is_probe_target(mods@, self@, #[trigger] r@[i]),
            forall|i: int, j: int| 0 <= i < j < r@.len() ==> r@[i].0 < r@[j].0,
            forall|k: int|
                #![trigger mods@[k]]
                0 <= k < mods@.len() && k <= u32::MAX && is_probe_target(
                    mods@,
                    self@,
                    ModIndex(k as u32),
                ) ==> r@.contains(ModIndex(k as u32)),
    {
        let mut r: Vec<ModIndex> = Vec::new();
        match self {
            UnresolvedTreeBuildError::Io { .. } => {},
            UnresolvedTreeBuildError::TypeMismatch { mod_index, .. } => {
                let mut k: usize = 0;
                while k < mods.len() && k <= u32::MAX as usize
                    invariant
                        k <= mods@.len(),
                        self@ is Conflict,
                        self@->Conflict_mod_index == *mod_index,
                        forall|i: int|
                            0 <= i < r@.len() ==> (#[trigger] r@[i]).0 < k && mods@[r@[i].0 as int].kind
                                == ModEntryKind::Mod && r@[i] != *mod_index,
                        forall|i: int, j: int| 0 <= i < j < r@.len() ==> r@[i].0 < r@[j].0,
                        forall|j: int|
                            #![trigger mods@[j]]
                            0 <= j < k && j <= u32::MAX && mods@[j].kind == ModEntryKind::Mod
                                && mod_index.0 != j ==> r@.contains(ModIndex(j as u32)),
                    decreases mods@.len() - k,
                {
                    let ghost before = r@;
                    match mods[k].kind() {
                        ModEntryKind::Mod => {
                            if mod_index.0 as usize != k {
                                r.push(ModIndex(k as u32));
                                assert(r@[before.len() as int] == ModIndex(k as u32));
                            }
                        },
                        ModEntryKind::Separator => {},
                    }
                    proof {
                        assert forall|j: int|
                            #![trigger mods@[j]]
                            0 <= j < k + 1 && j <= u32::MAX && mods@[j].kind == ModEntryKind::Mod
                                && mod_index.0 != j implies r@.contains(ModIndex(j as u32)) by {
                            if j < k {
                                assert(before.contains(ModIndex(j as u32)));
                                let i = choose|i: int|
                                    0 <= i < before.len() && before[i] == ModIndex(j as u32);
                                assert(r@[i] == ModIndex(j as u32));
                            }
                        }
                    }
                    k = k + 1;
                }
            },
        }
        r
    }

    /// Makes the error that is reported, with the mods that are party to a
    /// conflict known by name.
    ///
    /// `probes` says what was found at the path of the conflict in the
    /// directories of other mods. The message of a conflict names the entry,
    /// the mod that ran into the conflict, and, in the order of the probes,
    /// the mods in which the path is a directory where that mod has a file,
    /// or a file where it has a directory. Probes of the mod itself, of
    /// separators and of mods that the mod list does not have are passed
    /// over.
    pub fn with_context(self, mods: &Vec<ModDeclaration>, probes: &Vec<PathProbe>) -> (r:
        TreeBuildError)
        ensures
            r@ == (match self@ {
                MergeFault::Unreadable { message, .. } => TreeBuildErrorView::Io(message),
                MergeFault::Conflict { path, mod_index, is_dir } => TreeBuildErrorView::TypeMismatch(
                    mismatch_message(
                        name_at(path),
                        is_dir,
                        mod_name_at(mods@, mod_index),
                        conflicting_names(mods@, probes@, mod_index, is_dir),
                    ),
                ),
            }),
    {
        match self {
            UnresolvedTreeBuildError::Io { message, .. } => TreeBuildError::Io(message),
            UnresolvedTreeBuildError::TypeMismatch { path, mod_index, is_dir } => {
                let mut names: Vec<String> = Vec::new();
                let mut i: usize = 0;
                while i < probes.len()
                    invariant
                        i <= probes@.len(),
                        names_view(names@) == conflicting_names(
                            mods@,
                            probes@.take(i as int),
                            mod_index,
                            is_dir,
                        ),
                    decreases probes@.len() - i,
                {
                    let probe = probes[i];
                    proof {
                        assert(probes@.take(i + 1).drop_last() =~= probes@.take(i as int));
                        assert(probes@.take(i + 1).last() == probe);
                    }
                    let other = probe.mod_index.as_usize();
                    if probe.mod_index.0 != mod_index.0 && other < mods.len() && probe.is_dir
                        != is_dir {
                        match mods[other].kind() {
                            ModEntryKind::Mod => {
                                names.push(mods[other].name().clone());
                            },
                            ModEntryKind::Separator => {},
                        }
                    }
                    i = i + 1;
                    assert(names_view(names@) =~= conflicting_names(
                        mods@,
                        probes@.take(i as int),
                        mod_index,
                        is_dir,
                    ));
                }
                assert(probes@.take(i as int) =~= probes@);
                let joined = join_names(&names, "', '");
                let mut message = String::from_str("'");
                if path.len() > 0 {
                    message.append(path[path.len() - 1].as_str());
                } else {
                    message.append(".");
                }
                message.append(
                    "' is used as both a directory and a file by different mods: it's a ",
                );
                message.append(word_for(is_dir));
                message.append(" in '");
                if mod_index.as_usize() < mods.len() {
                    message.append(mods[mod_index.as_usize()].name().as_str());
                }
                message.append("', but a ");
                message.append(word_for(!is_dir));
                message.append(" in '");
                message.append(joined.as_str());
                message.append("'");
                assert(message@ =~= mismatch_message(
                    name_at(names_view(path@)),
                    is_dir,
                    mod_name_at(mods@, mod_index),
                    conflicting_names(mods@, probes@, mod_index, is_dir),
                ));
                TreeBuildError::TypeMismatch(message)
            },
        }
    }
}

} // verus!
