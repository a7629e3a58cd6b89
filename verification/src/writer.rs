//! What is handed to the thread that writes the files of an instance, and
//! the paths that it writes to.

use vstd::prelude::*;
use vstd::string::*;
use crate::instance::data::INSTANCE_DATA_FILE;
use crate::text::{join_path, joined_path};

verus! {

/// The file that a write is for.
#[derive(Copy, Clone, Debug, PartialEq, Eq, Structural)]
pub enum WriteTarget {
    /// The instance data file.
    InstanceData,
}

/// A request to replace the content of a file.
#[derive(Debug, PartialEq, Eq)]
pub struct WriteRequest {
    /// The new content of the file.
    pub content: Vec<u8>,
    /// The file to replace.
    pub target: WriteTarget,
}

/// The paths of the files of an instance: of each file that is written, and
/// of the temporary file beside it that is written first and then renamed
/// over it.
#[derive(Debug, Clone, PartialEq, Eq)]
pub struct FilePaths {
    data_file: String,
    data_file_tmp: String,
}

/// The path of the instance data file of the instance in `instance_dir`.
pub open spec fn data_file_path(instance_dir: Seq<char>) -> Seq<char> {
    joined_path(instance_dir, INSTANCE_DATA_FILE@)
}

/// The path of the temporary file for the file at `path`: the path with
/// `.tmp` added.
pub open spec fn temporary_path(path: Seq<char>) -> Seq<char> {
    path + ".tmp"@
}

impl FilePaths {
    /// The path of the instance data file.
    pub closed spec fn data_file(&self) -> Seq<char> {
        self.data_file@
    }

    /// The path of the temporary file of the instance data file.
    pub closed spec fn data_file_tmp(&self) -> Seq<char> {
        self.data_file_tmp@
    }

    /// The paths of the files of the instance in `instance_dir`.
    pub fn from_dir(instance_dir: &str) -> (r: FilePaths)
        ensures
            r.data_file() == data_file_path(instance_dir@),
            r.data_file_tmp() == temporary_path(data_file_path(instance_dir@)),
    {
        let data_file = join_path(instance_dir, INSTANCE_DATA_FILE);
        let mut data_file_tmp = data_file.clone();
        data_file_tmp.append(".tmp");
        FilePaths { data_file, data_file_tmp }
    }

    /// The path of the file that `target` names, and the path of its
    /// temporary file.
    pub fn path_of_target(&self, target: WriteTarget) -> (r: (&str, &str))
        ensures
            r.0@ == self.data_file(),
            r.1@ == self.data_file_tmp(),
    {
        match target {
            WriteTarget::InstanceData => (self.data_file.as_str(), self.data_file_tmp.as_str()),
        }
    }
}

} // verus!
