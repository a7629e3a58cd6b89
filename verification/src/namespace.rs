//! What is written to set up a user namespace in which the user and the
//! group are the same as outside.

use vstd::prelude::*;
use vstd::string::*;
use crate::text::{decimal, decimal_string};

verus! {

/// A text to write to a file.
#[derive(Debug, Clone, PartialEq, Eq)]
pub struct FileWrite {
    /// The path of the file.
    pub path: String,
    /// What is written to it, in one piece.
    pub content: String,
}

/// What a [`FileWrite`] says.
pub struct FileWriteView {
    pub path: Seq<char>,
    pub content: Seq<char>,
}

impl View for FileWrite {
    type V = FileWriteView;

    open spec fn view(&self) -> FileWriteView {
        FileWriteView { path: self.path@, content: self.content@ }
    }
}

/// What a list of writes says.
pub open spec fn writes_view(writes: Seq<FileWrite>) -> Seq<FileWriteView> {
    Seq::new(writes.len(), |i: int| writes[i]@)
}

/// The line that maps the one id `id` inside a namespace to the same id
/// outside.
pub open spec fn identity_map(id: nat) -> Seq<char> {
    decimal(id) + " "@ + decimal(id) + " 1\n"@
}

/// The line that maps the one id `id` inside a namespace to the same id
/// outside.
pub fn identity_map_line(id: u32) -> (r: String)
    ensures
        r@ == identity_map(id as nat),
{
    let digits = decimal_string(id);
    let mut r = digits.clone();
    r.append(" ");
    r.append(digits.as_str());
    r.append(" 1\n");
    r
}

/// The writes that map the user and the group of a new user namespace, in
/// their order: the map of the user; then the refusal to set groups, without
/// which the map of the group may not be written; then the map of the
/// group.
pub fn id_map_writes(uid: u32, gid: u32) -> (r: Vec<FileWrite>)
    ensures
        writes_view(r@) == seq![
            FileWriteView { path: "/proc/self/uid_map"@, content: identity_map(uid as nat) },
            FileWriteView { path: "/proc/self/setgroups"@, content: "deny"@ },
            FileWriteView { path: "/proc/self/gid_map"@, content: identity_map(gid as nat) },
        ],
{
    let mut r: Vec<FileWrite> = Vec::new();
    r.push(
        FileWrite { path: String::from_str("/proc/self/uid_map"), content: identity_map_line(uid) },
    );
    r.push(
        FileWrite {
            path: String::from_str("/proc/self/setgroups"),
            content: String::from_str("deny"),
        },
    );
    r.push(
        FileWrite { path: String::from_str("/proc/self/gid_map"), content: identity_map_line(gid) },
    );
    assert(writes_view(r@) =~= seq![
        FileWriteView { path: "/proc/self/uid_map"@, content: identity_map(uid as nat) },
        FileWriteView { path: "/proc/self/setgroups"@, content: "deny"@ },
        FileWriteView { path: "/proc/self/gid_map"@, content: identity_map(gid as nat) },
    ]);
    r
}

} // verus!
