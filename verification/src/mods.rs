//! A flat list of mods in one directory, every mod enabled.

use vstd::prelude::*;
use vstd::string::*;
use crate::instance::ModIndex;
use crate::text::{join_path, joined_path, names_view};

verus! {

/// The mods of an instance that keeps nothing but their names: the
/// directory that holds one directory per mod, and the names in the order of
/// the mod list.
#[derive(Debug, Clone, PartialEq, Eq)]
pub struct Mods {
    dir: String,
    names: Vec<String>,
}

/// What [`Mods`] says.
pub struct ModsView {
    pub dir: Seq<char>,
    pub names: Seq<Seq<char>>,
}

impl View for Mods {
    type V = ModsView;

    closed spec fn view(&self) -> ModsView {
        ModsView { dir: self.dir@, names: names_view(self.names@) }
    }
}

/// The names that a JSON text lists, where the text is a list of strings
/// and nothing else.
pub uninterp spec fn json_names(bytes: Seq<u8>) -> Option<Seq<Seq<char>>>;

/// `serde_json::from_slice`, asked for a list of strings, reads the bytes
/// as a JSON text and gives the strings that it lists, or fails where the
/// text is no list of strings. It reads nothing but the bytes.
#[verifier::external_body]
fn names_from_json(bytes: &[u8]) -> (r: Option<Vec<String>>)
    ensures
        match r {
            Some(names) => json_names(bytes@) == Some(names_view(names@)),
            None => json_names(bytes@).is_none(),
        },
{
    serde_json::from_slice::<Vec<String>>(bytes).ok()
}

impl Mods {
    /// The mods in the directory `dir` whose names the JSON text `list`
    /// lists, or nothing where the text is no list of names.
    pub fn read(dir: String, list: &[u8]) -> (r: Option<Mods>)
        ensures
            match json_names(list@) {
                Some(names) => (r matches Some(mods) && mods@ == (ModsView { dir: dir@, names })),
                None => r.is_none(),
            },
    {
        match names_from_json(list) {
            Some(names) => Some(Mods { dir, names }),
            None => None,
        }
    }

    /// The mods called `names` in the directory `dir`.
    pub fn new(dir: String, names: Vec<String>) -> (r: Mods)
        ensures
            r@ == (ModsView { dir: dir@, names: names_view(names@) }),
    {
        Mods { dir, names }
    }

    /// The directory that holds the directories of the mods.
    pub fn dir(&self) -> (r: &str)
        ensures
            r@ == self@.dir,
    {
        self.dir.as_str()
    }

    /// The names of the mods, in the order of the mod list.
    pub fn names(&self) -> (r: &Vec<String>)
        ensures
            names_view(r@) == self@.names,
    {
        &self.names
    }

    /// The name of the mod at `idx`, if there is such a mod.
    pub fn name(&self, idx: ModIndex) -> (r: Option<&str>)
        ensures
            match r {
                Some(name) => idx.0 < self@.names.len() && name@ == self@.names[idx.0 as int],
                None => idx.0 >= self@.names.len(),
            },
    {
        let i = idx.as_usize();
        if i < self.names.len() {
            Some(self.names[i].as_str())
        } else {
            None
        }
    }

    /// The directory of the mod at `idx`, if there is such a mod.
    pub fn path(&self, idx: ModIndex) -> (r: Option<String>)
        ensures
            match r {
                Some(path) => idx.0 < self@.names.len() && path@ == joined_path(
                    self@.dir,
                    self@.names[idx.0 as int],
                ),
                None => idx.0 >= self@.names.len(),
            },
    {
        match self.name(idx) {
            Some(name) => Some(join_path(self.dir.as_str(), name)),
            None => None,
        }
    }

    /// The mods with their indices, in the order of the mod list. Only mods
    /// that an index can stand for are listed: the first 2^32.
    pub fn enumerate(&self) -> (r: Vec<(ModIndex, &str)>)
        ensures
            r@.len() == (if self@.names.len() <= u32::MAX + 1 {
                self@.names.len() as int
            } else {
                u32::MAX + 1
            }),
            forall|i: int|
                0 <= i < r@.len() ==> (#[trigger] r@[i]).0 == ModIndex(i as u32) && r@[i].1@
                    == self@.names[i],
    {
        let mut r: Vec<(ModIndex, &str)> = Vec::new();
        let mut i: usize = 0;
        while i < self.names.len() && i <= u32::MAX as usize
            invariant
                i <= self.names@.len(),
                i <= u32::MAX + 1,
                r@.len() == i,
                forall|j: int|
                    0 <= j < i ==> (#[trigger] r@[j]).0 == ModIndex(j as u32) && r@[j].1@
                        == self@.names[j],
            decreases self.names@.len() - i,
        {
            r.push((ModIndex(i as u32), self.names[i].as_str()));
            i = i + 1;
        }
        r
    }
}

} // verus!
