//! What the walk through the directory of a mod found.

use vstd::prelude::*;
use crate::file_tree::tree::TreePath;
use crate::text::{names_view, str_equal};

verus! {

/// One entry of the directory tree of a mod.
#[derive(Debug, Clone, PartialEq, Eq)]
pub struct SourceEntry {
    /// The directory that holds the entry: an earlier entry of the listing,
    /// or none for an entry of the mod's own directory.
    pub parent: Option<usize>,
    /// The name of the entry.
    pub name: String,
    /// Whether the entry is a directory. What is no directory counts as a
    /// file, a symbolic link too, wherever it leads.
    pub is_dir: bool,
}

/// What a [`SourceEntry`] says.
pub struct SourceEntryView {
    pub parent: Option<int>,
    pub name: Seq<char>,
    pub is_dir: bool,
}

impl View for SourceEntry {
    type V = SourceEntryView;

    open spec fn view(&self) -> SourceEntryView {
        SourceEntryView {
            parent: match self.parent {
                Some(p) => Some(p as int),
                None => None,
            },
            name: self.name@,
            is_dir: self.is_dir,
        }
    }
}

/// What was found in the directory of one mod: the entries in the order in
/// which the walk through the directory met them, and the failure that
/// ended the walk, if one did.
#[derive(Debug, Clone, PartialEq, Eq)]
pub struct ModSource {
    entries: Vec<SourceEntry>,
    failure: Option<String>,
}

/// What a [`ModSource`] says.
pub struct ModSourceView {
    pub entries: Seq<SourceEntryView>,
    pub failure: Option<Seq<char>>,
}

/// Whether every entry of a listing lies in a directory that the listing
/// names before it.
pub open spec fn entries_are_nested(entries: Seq<SourceEntryView>) -> bool {
    forall|i: int|
        0 <= i < entries.len() ==> match (#[trigger] entries[i]).parent {
            Some(p) => 0 <= p < i && entries[p].is_dir,
            None => true,
        }
}

/// Whether no directory of a listing holds two entries of one name.
pub open spec fn names_are_distinct(entries: Seq<SourceEntryView>) -> bool {
    forall|i: int, j: int|
        0 <= i < j < entries.len() && (#[trigger] entries[i]).parent == (
        #[trigger] entries[j]).parent ==> entries[i].name != entries[j].name
}

/// Whether the directory `parent` of a listing, or the mod's own directory
/// where `parent` is none, holds an entry of the name `name`.
pub open spec fn holds_name(entries: Seq<SourceEntryView>, parent: Option<int>, name: Seq<char>) -> bool {
    exists|i: int|
        0 <= i < entries.len() && (#[trigger] entries[i]).parent == parent && entries[i].name
            == name
}

/// Whether an entry can be added to the directory `parent` of a listing:
/// whether `parent` is none or a directory of the listing.
pub open spec fn is_dir_of(entries: Seq<SourceEntryView>, parent: Option<int>) -> bool {
    match parent {
        Some(p) => 0 <= p < entries.len() && entries[p].is_dir,
        None => true,
    }
}

/// The path of the entry `i` of a listing, below the directory of the mod.
pub open spec fn entry_path(entries: Seq<SourceEntryView>, i: int) -> TreePath
    decreases i,
{
    if 0 <= i < entries.len() {
        match entries[i].parent {
            Some(p) => if 0 <= p < i {
                entry_path(entries, p).push(entries[i].name)
            } else {
                seq![entries[i].name]
            },
            None => seq![entries[i].name],
        }
    } else {
        Seq::empty()
    }
}

impl View for ModSource {
    type V = ModSourceView;

    closed spec fn view(&self) -> ModSourceView {
        ModSourceView {
            entries: Seq::new(self.entries@.len(), |i: int| self.entries@[i]@),
            failure: match self.failure {
                Some(message) => Some(message@),
                None => None,
            },
        }
    }
}

impl ModSource {
    /// Whether the listing is in order: every entry lies in a directory that
    /// the listing names before it, and no directory holds two entries of
    /// one name.
    pub open spec fn wf(&self) -> bool {
        entries_are_nested(self@.entries) && names_are_distinct(self@.entries)
    }

    /// A listing without entries.
    pub fn new() -> (r: ModSource)
        ensures
            r.wf(),
            r@.entries.len() == 0,
            r@.failure.is_none(),
    {
        ModSource { entries: Vec::new(), failure: None }
    }

    /// The number of entries.
    pub fn len(&self) -> (r: usize)
        ensures
            r == self@.entries.len(),
    {
        self.entries.len()
    }

    /// The entry at `index`.
    pub fn entry(&self, index: usize) -> (r: &SourceEntry)
        requires
            index < self@.entries.len(),
        ensures
            r@ == self@.entries[index as int],
    {
        &self.entries[index]
    }

    /// Whether the directory `parent` holds an entry of the name `name`.
    pub fn has_entry_named(&self, parent: Option<usize>, name: &str) -> (r: bool)
        ensures
            r == holds_name(
                self@.entries,
                match parent {
                    Some(p) => Some(p as int),
                    None => None,
                },
                name@,
            ),
    {
        let ghost at: Option<int> = match parent {
            Some(p) => Some(p as int),
            None => None,
        };
        let mut i: usize = 0;
        while i < self.entries.len()
            invariant
                i <= self.entries@.len(),
                at == match parent {
                    Some(p) => Some(p as int),
                    None => None::<int>,
                },
                forall|k: int|
                    0 <= k < i ==> !((#[trigger] self@.entries[k]).parent == at
                        && self@.entries[k].name == name@),
            decreases self.entries@.len() - i,
        {
            let entry = &self.entries[i];
            assert(self@.entries[i as int] == entry@);
            let same_parent = match (entry.parent, parent) {
                (Some(p), Some(q)) => p == q,
                (None, None) => true,
                _ => false,
            };
            if same_parent && str_equal(entry.name.as_str(), name) {
                return true;
            }
            i = i + 1;
        }
        false
    }

    /// Adds an entry to the listing: one of the directory at the index
    /// `parent`, or of the mod's own directory where `parent` is none. The
    /// index of the new entry is returned. Nothing is added, and nothing
    /// returned, where `parent` is no directory of the listing, or where
    /// that directory already holds an entry of this name.
    pub fn push(&mut self, parent: Option<usize>, name: String, is_dir: bool) -> (r: Option<usize>)
        requires
            old(self).wf(),
        ensures
            final(self).wf(),
            final(self)@.failure == old(self)@.failure,
            r.is_some() <==> is_dir_of(
                old(self)@.entries,
                match parent {
                    Some(p) => Some(p as int),
                    None => None,
                },
            ) && !holds_name(
                old(self)@.entries,
                match parent {
                    Some(p) => Some(p as int),
                    None => None,
                },
                name@,
            ),
            match r {
                Some(index) => index == old(self)@.entries.len()
                    && final(self)@.entries == old(self)@.entries.push(
                    SourceEntryView {
                        parent: match parent {
                            Some(p) => Some(p as int),
                            None => None,
                        },
                        name: name@,
                        is_dir,
                    },
                ),
                None => final(self)@ == old(self)@,
            },
    {
        let ghost before = self@;
        let ghost at: Option<int> = match parent {
            Some(p) => Some(p as int),
            None => None,
        };
        match parent {
            Some(p) => {
                if p >= self.entries.len() || !self.entries[p].is_dir {
                    return None;
                }
            },
            None => {},
        }
        if self.has_entry_named(parent, name.as_str()) {
            return None;
        }
        let index = self.entries.len();
        self.entries.push(SourceEntry { parent, name, is_dir });
        proof {
            assert(self@.entries =~= before.entries.push(
                SourceEntryView { parent: at, name: name@, is_dir },
            ));
            assert forall|i: int| 0 <= i < self@.entries.len() implies match (
            #[trigger] self@.entries[i]).parent {
                Some(p) => 0 <= p < i && self@.entries[p].is_dir,
                None => true,
            } by {
                if i < index {
                    assert(self@.entries[i] == before.entries[i]);
                }
            }
            assert forall|i: int, j: int|
                0 <= i < j < self@.entries.len() && (#[trigger] self@.entries[i]).parent == (
                #[trigger] self@.entries[j]).parent implies self@.entries[i].name
                != self@.entries[j].name by {
                assert(self@.entries[i] == before.entries[i]);
                if j < index {
                    assert(self@.entries[j] == before.entries[j]);
                }
            }
        }
        Some(index)
    }

    /// Records that the walk through the mod's directory ended with a
    /// failure, described by `message`.
    pub fn set_failure(&mut self, message: String)
        ensures
            final(self)@.entries == old(self)@.entries,
            final(self)@.failure == Some(message@),
    {
        self.failure = Some(message);
    }

    /// The failure that ended the walk, if one did.
    pub fn failure(&self) -> (r: Option<&String>)
        ensures
            match r {
                Some(message) => self@.failure == Some(message@),
                None => self@.failure.is_none(),
            },
    {
        match &self.failure {
            Some(message) => Some(message),
            None => None,
        }
    }

    /// The path of the entry at `index`, below the directory of the mod.
    pub fn path_of_entry(&self, index: usize) -> (r: Vec<String>)
        requires
            self.wf(),
            index < self@.entries.len(),
        ensures
            names_view(r@) == entry_path(self@.entries, index as int),
        decreases index,
    {
        let entry = &self.entries[index];
        assert(self@.entries[index as int] == entry@);
        match entry.parent {
            Some(p) => {
                let mut path = self.path_of_entry(p);
                path.push(entry.name.clone());
                assert(names_view(path@) =~= entry_path(self@.entries, index as int));
                path
            },
            None => {
                let mut path: Vec<String> = Vec::new();
                path.push(entry.name.clone());
                assert(names_view(path@) =~= entry_path(self@.entries, index as int));
                path
            },
        }
    }
}

} // verus!
