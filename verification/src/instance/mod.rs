//! The core data needed to work with mods: the mod list, profiles and the mod
//! order, and the view of an open instance that the rest of the library works
//! on.

pub mod cbor;
pub mod data;
pub mod format;
pub mod lists;
pub mod profiles;

use vstd::prelude::*;
use vstd::string::*;
use vstd::utf8::encode_utf8;
use crate::instance::lists::{ModOrder, entries_held, mod_order_from};
use crate::text::{join_path, joined_path};

verus! {

/// Name of the profile that is used where none is asked for.
pub const DEFAULT_PROFILE_NAME: &'static str = "default";

/// Display name of the profile that is made where an instance has none.
pub const DEFAULT_PROFILE_DISPLAY_NAME: &'static str = "Default";

/// Name of the directory, below an instance's base directory, that holds one
/// directory per mod.
pub const MODS_DIR_NAME: &'static str = "mods";

/// The longest mod name that is accepted, in bytes.
pub const MAX_MOD_NAME_LEN: usize = 255;

/// Index of a [`ModDeclaration`] in the mod list of an instance.
#[derive(Copy, Clone, Debug, PartialEq, Eq, Structural, PartialOrd, Ord, Hash)]
pub struct ModIndex(pub u32);

impl ModIndex {
    /// The index for the position `value`, where it is small enough to be one.
    pub fn from_usize(value: usize) -> (r: Option<ModIndex>)
        ensures
            r == (if value <= u32::MAX {
                Some(ModIndex(value as u32))
            } else {
                None::<ModIndex>
            }),
    {
        if value <= u32::MAX as usize {
            Some(ModIndex(value as u32))
        } else {
            None
        }
    }

    /// The position that this index stands for.
    pub fn as_usize(self) -> (r: usize)
        ensures
            r == self.0,
    {
        self.0 as usize
    }
}

impl From<usize> for ModIndex {
    /// The index for the position `value`; a position behind the last that
    /// an index can stand for gives the last index.
    fn from(value: usize) -> (r: ModIndex) {
        if value <= u32::MAX as usize {
            ModIndex(value as u32)
        } else {
            ModIndex(u32::MAX)
        }
    }
}

impl vstd::std_specs::convert::FromSpecImpl<usize> for ModIndex {
    open spec fn obeys_from_spec() -> bool {
        true
    }

    open spec fn from_spec(value: usize) -> ModIndex {
        if value <= u32::MAX {
            ModIndex(value as u32)
        } else {
            ModIndex(u32::MAX)
        }
    }
}

impl From<ModIndex> for usize {
    /// The position that the index stands for.
    fn from(value: ModIndex) -> (r: usize) {
        value.0 as usize
    }
}

impl vstd::std_specs::convert::FromSpecImpl<ModIndex> for usize {
    open spec fn obeys_from_spec() -> bool {
        true
    }

    open spec fn from_spec(value: ModIndex) -> usize {
        value.0 as usize
    }
}

/// Index of a [`ModOrderEntry`] in the mod order of a profile.
#[derive(Copy, Clone, Debug, PartialEq, Eq, Structural, PartialOrd, Ord, Hash)]
pub struct ModOrderIndex(pub u32);

impl ModOrderIndex {
    /// The index for the position `value`, where it is small enough to be one.
    pub fn from_usize(value: usize) -> (r: Option<ModOrderIndex>)
        ensures
            r == (if value <= u32::MAX {
                Some(ModOrderIndex(value as u32))
            } else {
                None::<ModOrderIndex>
            }),
    {
        if value <= u32::MAX as usize {
            Some(ModOrderIndex(value as u32))
        } else {
            None
        }
    }

    /// The position that this index stands for.
    pub fn as_usize(self) -> (r: usize)
        ensures
            r == self.0,
    {
        self.0 as usize
    }
}

impl From<usize> for ModOrderIndex {
    /// The index for the position `value`; a position behind the last that
    /// an index can stand for gives the last index.
    fn from(value: usize) -> (r: ModOrderIndex) {
        if value <= u32::MAX as usize {
            ModOrderIndex(value as u32)
        } else {
            ModOrderIndex(u32::MAX)
        }
    }
}

impl vstd::std_specs::convert::FromSpecImpl<usize> for ModOrderIndex {
    open spec fn obeys_from_spec() -> bool {
        true
    }

    open spec fn from_spec(value: usize) -> ModOrderIndex {
        if value <= u32::MAX {
            ModOrderIndex(value as u32)
        } else {
            ModOrderIndex(u32::MAX)
        }
    }
}

impl From<ModOrderIndex> for usize {
    /// The position that the index stands for.
    fn from(value: ModOrderIndex) -> (r: usize) {
        value.0 as usize
    }
}

impl vstd::std_specs::convert::FromSpecImpl<ModOrderIndex> for usize {
    open spec fn obeys_from_spec() -> bool {
        true
    }

    open spec fn from_spec(value: ModOrderIndex) -> usize {
        value.0 as usize
    }
}

/// The type of an entry in the mod list.
#[derive(Copy, Clone, Debug, PartialEq, Eq, Structural)]
pub enum ModEntryKind {
    /// A mod.
    Mod,
    /// An entry for organizing the mod list. Not a real mod: it has no files.
    Separator,
}

impl Default for ModEntryKind {
    fn default() -> (r: Self)
        ensures
            r == ModEntryKind::Mod,
    {
        ModEntryKind::Mod
    }
}

/// Why a name cannot be the name of a mod.
#[derive(Copy, Clone, Debug, PartialEq, Eq, Structural)]
pub enum InvalidModNameError {
    /// The name is longer than [`MAX_MOD_NAME_LEN`] bytes.
    TooLong,
    /// The name holds a path separator or a control character.
    ForbiddenCharacter,
}

/// Whether `c` separates the components of a path.
pub open spec fn is_path_separator(c: char) -> bool {
    c == '/' || c == '\\'
}

/// Whether `c` is a control character.
pub open spec fn is_control_character(c: char) -> bool {
    (c as u32) < 0x20 || (0x7f <= (c as u32) && (c as u32) <= 0x9f)
}

/// Whether a name is free of path separators and control characters.
pub open spec fn has_safe_characters(name: Seq<char>) -> bool {
    forall|i: int|
        0 <= i < name.len() ==> !is_path_separator(#[trigger] name[i]) && !is_control_character(
            name[i],
        )
}

/// Whether a mod may be called `name`: the name is at most
/// [`MAX_MOD_NAME_LEN`] bytes long and holds neither a path separator nor a
/// control character, so that it can be the name of the mod's directory.
pub open spec fn name_is_valid(name: Seq<char>) -> bool {
    encode_utf8(name).len() <= MAX_MOD_NAME_LEN && has_safe_characters(name)
}

/// What stands in the way of `name` as a mod name, if anything. Length is
/// looked at first.
pub open spec fn name_error(name: Seq<char>) -> Option<InvalidModNameError> {
    if encode_utf8(name).len() > MAX_MOD_NAME_LEN {
        Some(InvalidModNameError::TooLong)
    } else if !has_safe_characters(name) {
        Some(InvalidModNameError::ForbiddenCharacter)
    } else {
        None
    }
}

/// An entry in the mod list.
#[derive(Debug, Clone, PartialEq, Eq)]
pub struct ModDeclaration {
    pub name: String,
    pub kind: ModEntryKind,
}

/// What a [`ModDeclaration`] says.
pub struct ModDeclarationView {
    pub name: Seq<char>,
    pub kind: ModEntryKind,
}

impl View for ModDeclaration {
    type V = ModDeclarationView;

    open spec fn view(&self) -> ModDeclarationView {
        ModDeclarationView { name: self.name@, kind: self.kind }
    }
}

impl ModDeclaration {
    /// Declares an entry with the given name, if the name is a valid one.
    pub fn new(name: String, kind: ModEntryKind) -> (r: Result<ModDeclaration, InvalidModNameError>)
        ensures
            match name_error(name@) {
                Some(e) => r == Err::<ModDeclaration, InvalidModNameError>(e),
                None => r == Ok::<ModDeclaration, InvalidModNameError>(
                    ModDeclaration { name, kind },
                ),
            },
    {
        match Self::check_name(name.as_str()) {
            Some(e) => Err(e),
            None => Ok(ModDeclaration { name, kind }),
        }
    }

    /// What stands in the way of `name` as a mod name, if anything.
    pub fn check_name(name: &str) -> (r: Option<InvalidModNameError>)
        ensures
            r == name_error(name@),
    {
        if name.as_bytes().len() > MAX_MOD_NAME_LEN {
            return Some(InvalidModNameError::TooLong);
        }
        let n = name.unicode_len();
        let mut i: usize = 0;
        while i < n
            invariant
                i <= n == name@.len(),
                encode_utf8(name@).len() <= MAX_MOD_NAME_LEN,
                has_safe_characters(name@.take(i as int)),
            decreases n - i,
        {
            let c = name.get_char(i);
            let code = c as u32;
            if c == '/' || c == '\\' || code < 0x20 || (0x7f <= code && code <= 0x9f) {
                assert(!has_safe_characters(name@)) by {
                    assert(is_path_separator(name@[i as int]) || is_control_character(
                        name@[i as int],
                    ));
                }
                return Some(InvalidModNameError::ForbiddenCharacter);
            }
            i = i + 1;
            assert forall|k: int| 0 <= k < i implies !is_path_separator(
                #[trigger] name@.take(i as int)[k],
            ) && !is_control_character(name@.take(i as int)[k]) by {
                if k < i - 1 {
                    assert(name@.take(i as int)[k] == name@.take(i - 1)[k]);
                }
            }
        }
        assert(name@.take(n as int) =~= name@);
        None
    }

    /// Whether a mod may be called `name`.
    pub fn is_name_valid(name: &str) -> (r: bool)
        ensures
            r == name_is_valid(name@),
    {
        Self::check_name(name).is_none()
    }

    /// The entry's name.
    pub fn name(&self) -> (r: &String)
        ensures
            r@ == self@.name,
    {
        &self.name
    }

    /// The entry's type.
    pub fn kind(&self) -> (r: ModEntryKind)
        ensures
            r == self@.kind,
    {
        self.kind
    }
}

/// Stands for a [`ModDeclaration`] in the mod order of a profile.
#[derive(Copy, Clone, Debug, PartialEq, Eq, Structural)]
pub struct ModOrderEntry {
    /// The index of the declaration in the mod list.
    pub index: ModIndex,
    /// The activation state of this mod.
    pub enabled: bool,
}

impl ModOrderEntry {
    /// Creates a new disabled entry.
    pub fn new(index: ModIndex) -> (r: ModOrderEntry)
        ensures
            r == (ModOrderEntry { index, enabled: false }),
    {
        ModOrderEntry { index, enabled: false }
    }

    /// The index of the [`ModDeclaration`] that this entry stands for.
    pub fn mod_index(&self) -> (r: ModIndex)
        ensures
            r == self.index,
    {
        self.index
    }
}

/// A set of configurations that can be swapped within the same instance: a
/// mod order with the activation state of each mod.
#[derive(Debug, PartialEq, Eq)]
pub struct Profile {
    pub display_name: String,
    /// The mods in the order of their priority: a later entry overrides the
    /// files of an earlier one.
    pub mod_order: ModOrder,
}

/// What a [`Profile`] says.
pub struct ProfileView {
    pub display_name: Seq<char>,
    pub mod_order: Seq<ModOrderEntry>,
}

impl View for Profile {
    type V = ProfileView;

    open spec fn view(&self) -> ProfileView {
        ProfileView { display_name: self.display_name@, mod_order: entries_held(self.mod_order) }
    }
}

impl Profile {
    /// A profile without mods.
    pub fn new(display_name: String) -> (r: Profile)
        ensures
            r@ == (ProfileView { display_name: display_name@, mod_order: Seq::empty() }),
    {
        Profile { display_name, mod_order: mod_order_from(Vec::new()) }
    }

    /// The name under which the profile is shown.
    pub fn display_name(&self) -> (r: &String)
        ensures
            r@ == self@.display_name,
    {
        &self.display_name
    }
}

/// Whether a mod order names only mods of a list of `mods_len` mods.
pub open spec fn order_in_range(order: Seq<ModOrderEntry>, mods_len: nat) -> bool {
    forall|i: int| 0 <= i < order.len() ==> (#[trigger] order[i]).index.0 < mods_len
}

/// Whether no two entries of a mod order stand for the same mod.
pub open spec fn order_is_distinct(order: Seq<ModOrderEntry>) -> bool {
    forall|i: int, j: int|
        0 <= i < j < order.len() ==> (#[trigger] order[i]).index != (#[trigger] order[j]).index
}

/// Whether a mod order fits a mod list of `mods_len` mods: every entry names
/// a mod of the list, and no mod is named twice.
pub open spec fn order_is_valid(order: Seq<ModOrderEntry>, mods_len: nat) -> bool {
    order_in_range(order, mods_len) && order_is_distinct(order)
}

/// Whether an entry of a mod order brings files with it: it is enabled and
/// stands for a mod, not for a separator.
pub open spec fn entry_is_active(mods: Seq<ModDeclaration>, entry: ModOrderEntry) -> bool {
    entry.enabled && 0 <= entry.index.0 < mods.len() && mods[entry.index.0 as int].kind
        == ModEntryKind::Mod
}

/// The mods that bring files with them, from the highest priority to the
/// lowest: the active entries of the mod order, the last entry first.
pub open spec fn mods_by_priority(mods: Seq<ModDeclaration>, order: Seq<ModOrderEntry>) -> Seq<
    ModIndex,
>
    decreases order.len(),
{
    if order.len() == 0 {
        Seq::empty()
    } else {
        let later = mods_by_priority(mods, order.drop_first());
        if entry_is_active(mods, order[0]) {
            later.push(order[0].index)
        } else {
            later
        }
    }
}

/// An open instance: its base directory, its mods, and the mod order of its
/// current profile.
pub trait Instance {
    /// The instance's base directory.
    spec fn dir_spec(&self) -> Seq<char>;

    /// The mod list.
    spec fn mods_spec(&self) -> Seq<ModDeclaration>;

    /// The mod order of the current profile.
    spec fn mod_order_spec(&self) -> Seq<ModOrderEntry>;

    /// Whether the instance is in order.
    spec fn is_valid(&self) -> bool;

    /// The mod order of a valid instance fits its mod list.
    proof fn lemma_valid_order(&self)
        requires
            self.is_valid(),
        ensures
            order_is_valid(self.mod_order_spec(), self.mods_spec().len()),
    ;

    /// Returns the absolute path to the instance's base directory.
    fn dir(&self) -> (r: &str)
        requires
            self.is_valid(),
        ensures
            r@ == self.dir_spec(),
    ;

    /// Returns the declarations contained in the instance.
    fn mods(&self) -> (r: &Vec<ModDeclaration>)
        requires
            self.is_valid(),
        ensures
            r@ == self.mods_spec(),
    ;

    /// Returns the mod order of the current instance profile.
    ///
    /// No declaration has more than one entry in the mod order. Entries that
    /// appear last have higher priority, and their files override the files
    /// of entries that appear earlier.
    fn mod_order(&self) -> (r: &Vec<ModOrderEntry>)
        requires
            self.is_valid(),
        ensures
            r@ == self.mod_order_spec(),
    ;
}

/// The path of the directory of the mod called `name` in the instance whose
/// base directory is `dir`.
pub open spec fn mod_dir_path(dir: Seq<char>, name: Seq<char>) -> Seq<char> {
    joined_path(joined_path(dir, MODS_DIR_NAME@), name)
}

/// Returns the absolute path to the directory of a mod of the instance: the
/// directory of the mod's name in the directory `mods` of the base directory.
pub fn mod_dir<I: Instance>(instance: &I, declaration: &ModDeclaration) -> (r: String)
    requires
        instance.is_valid(),
    ensures
        r@ == mod_dir_path(instance.dir_spec(), declaration@.name),
{
    let mods_dir = join_path(instance.dir(), MODS_DIR_NAME);
    join_path(mods_dir.as_str(), declaration.name.as_str())
}

/// The mods of the instance that bring files with them, from the highest
/// priority to the lowest.
pub fn active_mods<I: Instance>(instance: &I) -> (r: Vec<ModIndex>)
    requires
        instance.is_valid(),
    ensures
        r@ == mods_by_priority(instance.mods_spec(), instance.mod_order_spec()),
{
    let mods = instance.mods();
    let order = instance.mod_order();
    proof {
        instance.lemma_valid_order();
    }
    let mut r: Vec<ModIndex> = Vec::new();
    let mut i: usize = order.len();
    assert(order@.skip(i as int) =~= Seq::empty());
    while i > 0
        invariant
            i <= order@.len(),
            order_is_valid(order@, mods@.len()),
            r@ == mods_by_priority(mods@, order@.skip(i as int)),
        decreases i,
    {
        i = i - 1;
        let entry = order[i];
        proof {
            assert(order@.skip(i as int).drop_first() =~= order@.skip(i + 1));
            assert(order@.skip(i as int)[0] == order@[i as int]);
        }
        if entry.enabled {
            let index = entry.mod_index();
            match mods[index.as_usize()].kind() {
                ModEntryKind::Mod => {
                    r.push(index);
                },
                ModEntryKind::Separator => {},
            }
        }
    }
    assert(order@.skip(0) =~= order@);
    r
}

} // verus!
