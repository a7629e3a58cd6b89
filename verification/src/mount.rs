//! What is set on a new file system before it is mounted.

use vstd::prelude::*;
use vstd::string::*;
use crate::text::{decimal, decimal_string};

verus! {

/// What an option of a file system is set to.
#[derive(Debug, Clone, PartialEq, Eq)]
pub enum MountValue {
    /// A text.
    Text(String),
    /// The directory that the file system is mounted on, as it was opened.
    Target,
}

/// What a [`MountValue`] says.
pub enum MountValueView {
    Text(Seq<char>),
    Target,
}

impl View for MountValue {
    type V = MountValueView;

    open spec fn view(&self) -> MountValueView {
        match self {
            MountValue::Text(text) => MountValueView::Text(text@),
            MountValue::Target => MountValueView::Target,
        }
    }
}

/// An option of a file system.
#[derive(Debug, Clone, PartialEq, Eq)]
pub struct MountOption {
    /// The name of the option.
    pub key: String,
    /// What the option is set to.
    pub value: MountValue,
}

/// What a [`MountOption`] says.
pub struct MountOptionView {
    pub key: Seq<char>,
    pub value: MountValueView,
}

impl View for MountOption {
    type V = MountOptionView;

    open spec fn view(&self) -> MountOptionView {
        MountOptionView { key: self.key@, value: self.value@ }
    }
}

/// What a list of options says.
pub open spec fn options_view(options: Seq<MountOption>) -> Seq<MountOptionView> {
    Seq::new(options.len(), |i: int| options[i]@)
}

/// An option that is set to a text.
pub open spec fn text_option(key: Seq<char>, value: Seq<char>) -> MountOptionView {
    MountOptionView { key, value: MountValueView::Text(value) }
}

/// An option that is set to a text.
fn option_with_text(key: &str, value: String) -> (r: MountOption)
    ensures
        r@ == text_option(key@, value@),
{
    MountOption { key: String::from_str(key), value: MountValue::Text(value) }
}

/// The type of the file system that backs the staging tree.
pub const TMPFS_TYPE: &'static str = "tmpfs";

/// The type of the union file system.
pub const OVERLAY_TYPE: &'static str = "overlay";

/// The options of the temporary file system that backs the staging tree:
/// it belongs to the user and the group that are given, and only they may
/// enter it.
pub fn tmpfs_options(uid: u32, gid: u32) -> (r: Vec<MountOption>)
    ensures
        options_view(r@) == seq![
            text_option("source"@, "tmpfs"@),
            text_option("uid"@, decimal(uid as nat)),
            text_option("gid"@, decimal(gid as nat)),
            text_option("mode"@, "750"@),
        ],
{
    let mut r: Vec<MountOption> = Vec::new();
    r.push(option_with_text("source", String::from_str("tmpfs")));
    r.push(option_with_text("uid", decimal_string(uid)));
    r.push(option_with_text("gid", decimal_string(gid)));
    r.push(option_with_text("mode", String::from_str("750")));
    assert(options_view(r@) =~= seq![
        text_option("source"@, "tmpfs"@),
        text_option("uid"@, decimal(uid as nat)),
        text_option("gid"@, decimal(gid as nat)),
        text_option("mode"@, "750"@),
    ]);
    r
}

/// The options of the union file system over the game directory: the
/// staging tree is the first of the lower layers and the game directory,
/// as it was opened, the second, so that a file of the staging tree hides
/// the file of the game at the same path.
pub fn overlay_options(staging_path: &str) -> (r: Vec<MountOption>)
    ensures
        options_view(r@) == seq![
            text_option("source"@, "overlay"@),
            text_option("lowerdir+"@, staging_path@),
            MountOptionView { key: "lowerdir+"@, value: MountValueView::Target },
        ],
{
    let mut r: Vec<MountOption> = Vec::new();
    r.push(option_with_text("source", String::from_str("overlay")));
    r.push(option_with_text("lowerdir+", String::from_str(staging_path)));
    r.push(MountOption { key: String::from_str("lowerdir+"), value: MountValue::Target });
    assert(options_view(r@) =~= seq![
        text_option("source"@, "overlay"@),
        text_option("lowerdir+"@, staging_path@),
        MountOptionView { key: "lowerdir+"@, value: MountValueView::Target },
    ]);
    r
}

} // verus!
