//! An instance that can be edited: mods are created, removed, renamed,
//! enabled and reordered, and profiles are added and switched, so that the
//! data stays consistent.

pub mod names;
pub mod order;
pub mod picked;

pub use self::names::PROFILE_NAME_LIMIT;
pub use self::order::add_missing_mods;

use vstd::prelude::*;
use vstd::string::*;
use crate::edit::names::{candidate_name, free_candidate, lemma_candidate_name};
use crate::edit::order::{completed_order, disabled_entry, lemma_completed_order};
use crate::edit::order::{lemma_moved_order_is_valid, lemma_order_without_is_valid, positions};
use crate::edit::order::{profiles_without, remove_from_order};
use crate::edit::picked::{lemma_picked, picked, places_held, places_of};
use crate::instance::cbor::{cbor_bytes, cbor_document};
use crate::instance::data::{InstanceData, InstanceDataView, data_is_valid, mods_view};
use crate::instance::data::InstanceDataOpenError;
use crate::instance::format::{instance_document, loaded_from};
use crate::instance::lists::{declarations_held, declarations_of, declarations_of_mut, entries_of};
use crate::instance::profiles::{ProfilesView, has_key, key_position, lemma_ascending, with_entry};
use crate::instance::{DEFAULT_PROFILE_DISPLAY_NAME, DEFAULT_PROFILE_NAME, Instance};
use crate::instance::{InvalidModNameError, ModDeclaration, ModEntryKind, ModIndex};
use crate::instance::{ModOrderEntry, ModOrderIndex, Profile, ProfileView};
use crate::instance::{mod_dir, mod_dir_path, name_error, order_is_valid};
use crate::text::{byte_len, decimal_string, join_path, str_equal, trim, trimmed};
use crate::text::{truncate_str, truncated};
use crate::util::{block_start, move_multiple, moved, selection};
use crate::writer::{WriteRequest, WriteTarget};

verus! {

/// What the editor remembers between edits.
#[derive(Debug, Clone, PartialEq, Eq)]
pub struct EditorState {
    current_profile: String,
}

impl Default for EditorState {
    fn default() -> (r: Self)
        ensures
            r.current_profile_view() == DEFAULT_PROFILE_NAME@,
    {
        EditorState { current_profile: String::from_str(DEFAULT_PROFILE_NAME) }
    }
}

impl EditorState {
    /// The name of the current profile.
    pub closed spec fn current_profile_view(&self) -> Seq<char> {
        self.current_profile@
    }

    /// The name of the current profile.
    pub fn current_profile(&self) -> (r: &String)
        ensures
            r@ == self.current_profile_view(),
    {
        &self.current_profile
    }
}

/// An instance with editing support, for interactive applications.
#[derive(Debug, PartialEq, Eq)]
pub struct EditableInstance {
    dir: String,
    data: InstanceData,
    state: EditorState,
    changed: bool,
}

/// What an [`EditableInstance`] says.
pub struct EditableInstanceView {
    /// The instance's base directory.
    pub dir: Seq<char>,
    /// The instance data.
    pub data: InstanceDataView,
    /// The name of the current profile.
    pub current_profile: Seq<char>,
    /// Whether the data changed since it was last saved.
    pub changed: bool,
}

/// The profiles with the mod order of the profile called `name` completed
/// for a mod list of `mods_len` mods.
pub open spec fn activated(profiles: ProfilesView, name: Seq<char>, mods_len: nat) -> ProfilesView {
    if has_key(profiles, name) {
        let i = key_position(profiles, name);
        profiles.update(
            i,
            (
                profiles[i].0,
                ProfileView {
                    display_name: profiles[i].1.display_name,
                    mod_order: completed_order(profiles[i].1.mod_order, mods_len),
                },
            ),
        )
    } else {
        profiles
    }
}

/// The profiles with `order` as the mod order of the profile called `name`.
pub open spec fn with_order(profiles: ProfilesView, name: Seq<char>, order: Seq<ModOrderEntry>) -> ProfilesView {
    if has_key(profiles, name) {
        let i = key_position(profiles, name);
        profiles.update(
            i,
            (profiles[i].0, ProfileView { display_name: profiles[i].1.display_name, mod_order: order }),
        )
    } else {
        profiles
    }
}

/// The mod order of the profile called `name`.
pub open spec fn order_of(profiles: ProfilesView, name: Seq<char>) -> Seq<ModOrderEntry> {
    profiles[key_position(profiles, name)].1.mod_order
}

/// The profile that is made where an instance has none.
pub open spec fn default_profile() -> ProfileView {
    ProfileView { display_name: DEFAULT_PROFILE_DISPLAY_NAME@, mod_order: Seq::empty() }
}

/// The profiles of an instance as it is opened: those that it has, or the
/// default profile where it has none.
pub open spec fn profiles_to_open(profiles: ProfilesView) -> ProfilesView {
    if profiles.len() == 0 {
        seq![(DEFAULT_PROFILE_NAME@, default_profile())]
    } else {
        profiles
    }
}

/// The name of the profile that is current when an instance is opened: the
/// profile called `default`, or else the profile whose name comes first.
pub open spec fn profile_to_open(profiles: ProfilesView) -> Seq<char> {
    if has_key(profiles, DEFAULT_PROFILE_NAME@) || profiles.len() == 0 {
        DEFAULT_PROFILE_NAME@
    } else {
        profiles[0].0
    }
}

impl View for EditableInstance {
    type V = EditableInstanceView;

    closed spec fn view(&self) -> EditableInstanceView {
        EditableInstanceView {
            dir: self.dir@,
            data: self.data@,
            current_profile: self.state.current_profile@,
            changed: self.changed,
        }
    }
}

impl EditableInstance {
    /// Whether the instance is in order: its data is consistent, it has its
    /// current profile, and every mod has an index.
    pub open spec fn wf(&self) -> bool {
        &&& data_is_valid(self@.data)
        &&& has_key(self@.data.profiles, self@.current_profile)
        &&& self@.data.mods.len() <= u32::MAX + 1
    }

    /// The mod list.
    pub closed spec fn mods_seq(&self) -> Seq<ModDeclaration> {
        declarations_held(self.data.mods)
    }

    /// The mod order of the current profile.
    pub open spec fn current_order(&self) -> Seq<ModOrderEntry> {
        order_of(self@.data.profiles, self@.current_profile)
    }

    /// The position of the current profile among the profiles.
    fn current_index(&self) -> (r: usize)
        requires
            self.wf(),
        ensures
            r < self@.data.profiles.len(),
            r == key_position(self@.data.profiles, self@.current_profile),
            self@.data.profiles[r as int].0 == self@.current_profile,
            self.data.profiles.wf(),
            self.data.profiles@ == self@.data.profiles,
    {
        match self.data.profiles.position(self.state.current_profile.as_str()) {
            Some(i) => i,
            None => 0,
        }
    }

    /// Adds the entries that the mod order of the current profile lacks.
    fn add_missing_mods_to_mod_order(&mut self)
        requires
            old(self).wf(),
        ensures
            final(self).wf(),
            final(self)@ == (EditableInstanceView {
                data: InstanceDataView {
                    mods: old(self)@.data.mods,
                    profiles: activated(
                        old(self)@.data.profiles,
                        old(self)@.current_profile,
                        old(self)@.data.mods.len(),
                    ),
                },
                ..old(self)@
            }),
            final(self).mods_seq() == old(self).mods_seq(),
    {
        let i = self.current_index();
        let ghost before = self@.data.profiles;
        let mods_len = declarations_of(&self.data.mods).len();
        let mut order = self.data.profiles.replace_order(i, Vec::new());
        add_missing_mods(&mut order, mods_len);
        let _ = self.data.profiles.replace_order(i, order);
        proof {
            let after = self@.data.profiles;
            lemma_completed_order(before[i as int].1.mod_order, mods_len as nat);
            assert(after =~= activated(before, self@.current_profile, mods_len as nat));
            assert(after[i as int].0 == self@.current_profile);
            assert forall|k: int| 0 <= k < after.len() implies order_is_valid(
                (#[trigger] after[k]).1.mod_order,
                mods_len as nat,
            ) by {
                if k != i {
                    assert(after[k] == before[k]);
                }
            }
        }
    }

    /// Opens the instance in the directory `dir` with the given data.
    ///
    /// The current profile is the one called `default`, or else the profile
    /// whose name comes first; an instance without profiles gets an empty
    /// default profile. The mod order of the current profile is completed:
    /// mods that it does not name are added at its end, disabled. The
    /// instance counts as unchanged.
    pub fn open(dir: String, data: InstanceData) -> (r: EditableInstance)
        requires
            data.wf(),
            data@.mods.len() <= u32::MAX + 1,
        ensures
            r.wf(),
            r@ == (EditableInstanceView {
                dir: dir@,
                data: InstanceDataView {
                    mods: data@.mods,
                    profiles: activated(
                        profiles_to_open(data@.profiles),
                        profile_to_open(data@.profiles),
                        data@.mods.len(),
                    ),
                },
                current_profile: profile_to_open(data@.profiles),
                changed: false,
            }),
            r.mods_seq() == declarations_held(data.mods),
    {
        let mut data = data;
        let ghost before = data@.profiles;
        let mut state = EditorState::default();
        if !data.profiles.contains_key(state.current_profile.as_str()) {
            if data.profiles.len() > 0 {
                state.current_profile = data.profiles.name_at(0).clone();
                assert(has_key(before, before[0].0));
            } else {
                let profile = Profile::new(String::from_str(DEFAULT_PROFILE_DISPLAY_NAME));
                data.profiles.insert(String::from_str(DEFAULT_PROFILE_NAME), profile);
                proof {
                    assert(before =~= Seq::empty());
                    assert(crate::instance::profiles::rank(before, DEFAULT_PROFILE_NAME@) == 0);
                    assert(data@.profiles =~= seq![(DEFAULT_PROFILE_NAME@, default_profile())]);
                    assert(data@.profiles[0].0 == DEFAULT_PROFILE_NAME@);
                }
            }
        }
        let mut instance = EditableInstance { dir, data, state, changed: false };
        assert(instance.wf());
        instance.add_missing_mods_to_mod_order();
        instance
    }

    /// Switches the current profile to the specified one, and completes its
    /// mod order.
    ///
    /// Does nothing if the profile doesn't exist.
    pub fn switch_to_profile(&mut self, profile_name: String)
        requires
            old(self).wf(),
        ensures
            final(self).wf(),
            final(self).mods_seq() == old(self).mods_seq(),
            final(self)@ == (if has_key(old(self)@.data.profiles, profile_name@) {
                EditableInstanceView {
                    data: InstanceDataView {
                        mods: old(self)@.data.mods,
                        profiles: activated(
                            old(self)@.data.profiles,
                            profile_name@,
                            old(self)@.data.mods.len(),
                        ),
                    },
                    current_profile: profile_name@,
                    ..old(self)@
                }
            } else {
                old(self)@
            }),
    {
        if !self.data.profiles.contains_key(profile_name.as_str()) {
            return ;
        }
        self.state.current_profile = profile_name;
        self.add_missing_mods_to_mod_order();
    }

    /// Toggles the enabled state of a mod in the mod order.
    pub fn toggle_mod_enabled(&mut self, index: ModOrderIndex)
        requires
            old(self).wf(),
            index.0 < old(self).current_order().len(),
        ensures
            final(self).wf(),
            final(self).mods_seq() == old(self).mods_seq(),
            final(self)@ == (EditableInstanceView {
                data: InstanceDataView {
                    mods: old(self)@.data.mods,
                    profiles: with_order(
                        old(self)@.data.profiles,
                        old(self)@.current_profile,
                        old(self).current_order().update(
                            index.0 as int,
                            ModOrderEntry {
                                index: old(self).current_order()[index.0 as int].index,
                                enabled: !old(self).current_order()[index.0 as int].enabled,
                            },
                        ),
                    ),
                },
                changed: true,
                ..old(self)@
            }),
    {
        let i = self.current_index();
        let ghost before = self@.data.profiles;
        let ghost mods_len = self@.data.mods.len();
        self.changed = true;
        let mut order = self.data.profiles.replace_order(i, Vec::new());
        let ghost old_order = order@;
        let entry = order[index.as_usize()];
        order[index.as_usize()] = ModOrderEntry { index: entry.index, enabled: !entry.enabled };
        let ghost new_order = order@;
        let _ = self.data.profiles.replace_order(i, order);
        proof {
            let after = self@.data.profiles;
            assert(after =~= with_order(before, self@.current_profile, new_order));
            assert(order_is_valid(old_order, mods_len));
            assert(order_is_valid(new_order, mods_len)) by {
                assert forall|a: int| 0 <= a < new_order.len() implies (
                #[trigger] new_order[a]).index == old_order[a].index by {}
                assert forall|a: int, b: int| 0 <= a < b < new_order.len() implies (
                #[trigger] new_order[a]).index != (#[trigger] new_order[b]).index by {
                    assert(old_order[a].index != old_order[b].index);
                }
                assert forall|a: int| 0 <= a < new_order.len() implies (
                #[trigger] new_order[a]).index.0 < mods_len by {
                    assert(old_order[a].index.0 < mods_len);
                }
            }
            assert(after[i as int].0 == self@.current_profile);
            assert forall|k: int| 0 <= k < after.len() implies order_is_valid(
                (#[trigger] after[k]).1.mod_order,
                mods_len,
            ) by {
                if k != i {
                    assert(after[k] == before[k]);
                }
            }
        }
    }

    /// Moves a set of mods to a specific index in the mod order.
    ///
    /// The entries at the positions that `mods_to_move` holds end up as one
    /// block, in the order in which they stood, beginning at `to`, or as far
    /// right as the block fits; the other entries keep their order. The index
    /// at which the block begins is returned.
    pub fn move_mods(&mut self, mods_to_move: &foldhash::HashSet<ModOrderIndex>, to: ModOrderIndex) -> (r:
        ModOrderIndex)
        requires
            old(self).wf(),
        ensures
            final(self).wf(),
            final(self).mods_seq() == old(self).mods_seq(),
            r.0 == block_start(
                old(self).current_order().len(),
                picked(places_held(*mods_to_move), old(self).current_order().len()),
                to.0 as int,
            ),
            final(self)@ == (EditableInstanceView {
                data: InstanceDataView {
                    mods: old(self)@.data.mods,
                    profiles: with_order(
                        old(self)@.data.profiles,
                        old(self)@.current_profile,
                        moved(
                            old(self).current_order(),
                            picked(places_held(*mods_to_move), old(self).current_order().len()),
                            r.0 as int,
                        ),
                    ),
                },
                changed: true,
                ..old(self)@
            }),
    {
        let places = places_of(mods_to_move);
        proof {
            lemma_picked(places@, self.current_order().len());
        }
        self.move_mods_at(&places, to)
    }

    /// Moves the mods at the places of a list to a specific index in the
    /// mod order: [`EditableInstance::move_mods`] for places that come in
    /// any order, and any number of times each.
    ///
    /// The entries at the positions that `mods_to_move` names end up as one
    /// block, in the order in which they stood, beginning at `to`, or as far
    /// right as the block fits; the other entries keep their order. The index
    /// at which the block begins is returned.
    pub fn move_mods_at(&mut self, mods_to_move: &Vec<ModOrderIndex>, to: ModOrderIndex) -> (r:
        ModOrderIndex)
        requires
            old(self).wf(),
        ensures
            final(self).wf(),
            final(self).mods_seq() == old(self).mods_seq(),
            r.0 == block_start(
                old(self).current_order().len(),
                selection(positions(mods_to_move@), old(self).current_order().len()),
                to.0 as int,
            ),
            final(self)@ == (EditableInstanceView {
                data: InstanceDataView {
                    mods: old(self)@.data.mods,
                    profiles: with_order(
                        old(self)@.data.profiles,
                        old(self)@.current_profile,
                        moved(
                            old(self).current_order(),
                            selection(positions(mods_to_move@), old(self).current_order().len()),
                            r.0 as int,
                        ),
                    ),
                },
                changed: true,
                ..old(self)@
            }),
    {
        let i = self.current_index();
        let ghost before = self@.data.profiles;
        let ghost mods_len = self@.data.mods.len();
        self.changed = true;
        let mut from: Vec<usize> = Vec::new();
        let mut k: usize = 0;
        while k < mods_to_move.len()
            invariant
                k <= mods_to_move@.len(),
                from@ == positions(mods_to_move@).take(k as int),
            decreases mods_to_move@.len() - k,
        {
            from.push(mods_to_move[k].as_usize());
            k = k + 1;
            assert(from@ =~= positions(mods_to_move@).take(k as int));
        }
        assert(from@ =~= positions(mods_to_move@));
        let mut order = self.data.profiles.replace_order(i, Vec::new());
        let ghost old_order = order@;
        let first = move_multiple(order.as_mut_slice(), from.as_slice(), to.as_usize());
        let ghost new_order = order@;
        let _ = self.data.profiles.replace_order(i, order);
        proof {
            let after = self@.data.profiles;
            lemma_moved_order_is_valid(old_order, from@, to.0 as usize, mods_len);
            assert(after =~= with_order(before, self@.current_profile, new_order));
            assert(after[i as int].0 == self@.current_profile);
            assert forall|k: int| 0 <= k < after.len() implies order_is_valid(
                (#[trigger] after[k]).1.mod_order,
                mods_len,
            ) by {
                if k != i {
                    assert(after[k] == before[k]);
                }
            }
        }
        ModOrderIndex(first as u32)
    }

    /// Hands out the instance data for writing, if it changed since it was
    /// last handed out, and counts the instance as unchanged from then on.
    ///
    /// The request holds the bytes that the encoder writes for the data.
    /// They are read back first: a changed instance hands out a request
    /// exactly if its bytes decode to the data's document again.
    pub fn save(&mut self) -> (r: Option<WriteRequest>)
        ensures
            final(self).mods_seq() == old(self).mods_seq(),
            final(self)@ == (EditableInstanceView { changed: false, ..old(self)@ }),
            r.is_some() <==> old(self)@.changed && cbor_document(
                cbor_bytes(instance_document(old(self)@.data)),
            ) == Some(instance_document(old(self)@.data)),
            r matches Some(request) ==> request.target == WriteTarget::InstanceData
                && request.content@ == cbor_bytes(instance_document(old(self)@.data))
                && (old(self).wf() ==> loaded_from(request.content@) == Ok::<
                InstanceDataView,
                InstanceDataOpenError,
            >(old(self)@.data)),
    {
        if !self.changed {
            return None;
        }
        self.changed = false;
        match self.data.serialize() {
            Some(content) => Some(WriteRequest { content, target: WriteTarget::InstanceData }),
            None => None,
        }
    }
}

impl Instance for EditableInstance {
    open spec fn dir_spec(&self) -> Seq<char> {
        self.dir_seq()
    }

    open spec fn mods_spec(&self) -> Seq<ModDeclaration> {
        self.mods_seq()
    }

    open spec fn mod_order_spec(&self) -> Seq<ModOrderEntry> {
        self.current_order()
    }

    open spec fn is_valid(&self) -> bool {
        self.wf()
    }

    proof fn lemma_valid_order(&self) {
        let profiles = self@.data.profiles;
        let i = key_position(profiles, self@.current_profile);
        assert(order_is_valid(profiles[i].1.mod_order, self@.data.mods.len()));
    }

    fn dir(&self) -> (r: &str) {
        self.dir.as_str()
    }

    fn mods(&self) -> (r: &Vec<ModDeclaration>) {
        declarations_of(&self.data.mods)
    }

    fn mod_order(&self) -> (r: &Vec<ModOrderEntry>) {
        let i = self.current_index();
        entries_of(&self.data.profiles.profile_at(i).mod_order)
    }
}

/// Error type returned where a mod cannot be created.
#[derive(Copy, Clone, Debug, PartialEq, Eq, Structural)]
pub enum CreateModError {
    /// There already exists a mod with the specified name.
    AlreadyExists,
    /// The name cannot be the name of a mod.
    InvalidName(InvalidModNameError),
}

/// Error type returned where a mod cannot be renamed.
#[derive(Copy, Clone, Debug, PartialEq, Eq, Structural)]
pub enum RenameModError {
    /// There already exists a mod with the specified name.
    AlreadyExists,
    /// The name cannot be the name of a mod.
    InvalidName(InvalidModNameError),
}

/// Whether a mod of the list is called `name`.
pub open spec fn name_is_taken(mods: Seq<ModDeclaration>, name: Seq<char>) -> bool {
    exists|i: int| 0 <= i < mods.len() && (#[trigger] mods[i]).name@ == name
}

/// The directory of a declaration in the instance in `dir`, if it has one: a
/// mod has, a separator has not.
pub open spec fn directory_of(dir: Seq<char>, declaration: ModDeclaration) -> Option<Seq<char>> {
    if declaration.kind == ModEntryKind::Mod {
        Some(mod_dir_path(dir, declaration.name@))
    } else {
        None
    }
}

/// What an optional string says.
pub open spec fn optional_view(s: Option<String>) -> Option<Seq<char>> {
    match s {
        Some(s) => Some(s@),
        None => None,
    }
}

impl EditableInstance {
    /// The instance's base directory.
    pub closed spec fn dir_seq(&self) -> Seq<char> {
        self.dir@
    }

    /// Whether a mod is called `name`.
    fn has_mod_named(&self, name: &str) -> (r: bool)
        ensures
            r == name_is_taken(self.mods_seq(), name@),
    {
        let mods = declarations_of(&self.data.mods);
        let mut i: usize = 0;
        while i < mods.len()
            invariant
                i <= mods@.len(),
                mods@ == self.mods_seq(),
                forall|j: int| 0 <= j < i ==> (#[trigger] mods@[j]).name@ != name@,
            decreases mods@.len() - i,
        {
            if str_equal(mods[i].name().as_str(), name) {
                return true;
            }
            i = i + 1;
        }
        false
    }

    /// The directory of a declaration, if it has one.
    fn directory(&self, declaration: &ModDeclaration) -> (r: Option<String>)
        requires
            self.wf(),
        ensures
            optional_view(r) == directory_of(self.dir_seq(), *declaration),
    {
        match declaration.kind() {
            ModEntryKind::Mod => Some(mod_dir(self, declaration)),
            ModEntryKind::Separator => None,
        }
    }

    /// Creates a [`Profile`] with the specified name.
    ///
    /// The profile is shown under the name as given, without the white space
    /// at its ends. It is kept under that name cut down to
    /// [`PROFILE_NAME_LIMIT`] bytes, or, where another profile is kept under
    /// that, under the first name with a number from 1 on behind it that no
    /// profile has; room for the number is made by cutting the name down
    /// further. A name of no more than [`PROFILE_NAME_LIMIT`] bytes that no
    /// profile has is kept as it is. This method returns the name that ends
    /// up being used. Where
    /// no number up to 2^32 - 1 gives a free name, no profile is created and
    /// nothing is returned.
    pub fn add_profile(&mut self, name: &str) -> (r: Option<String>)
        requires
            old(self).wf(),
        ensures
            final(self).wf(),
            final(self).mods_seq() == old(self).mods_seq(),
            r matches Some(actual_name) ==> byte_len(actual_name@) <= PROFILE_NAME_LIMIT,
            byte_len(trimmed(name@)) <= PROFILE_NAME_LIMIT && !has_key(
                old(self)@.data.profiles,
                trimmed(name@),
            ) ==> (r matches Some(actual_name) && actual_name@ == trimmed(name@)),
            match free_candidate(
                old(self)@.data.profiles,
                truncated(trimmed(name@), PROFILE_NAME_LIMIT as nat),
                0,
            ) {
                Some(n) => (r matches Some(actual_name) && actual_name@ == candidate_name(
                    truncated(trimmed(name@), PROFILE_NAME_LIMIT as nat),
                    n,
                ) && final(self)@ == (EditableInstanceView {
                    data: InstanceDataView {
                        mods: old(self)@.data.mods,
                        profiles: with_entry(
                            old(self)@.data.profiles,
                            actual_name@,
                            ProfileView { display_name: trimmed(name@), mod_order: Seq::empty() },
                        ),
                    },
                    changed: true,
                    ..old(self)@
                })),
                None => r.is_none() && final(self)@ == old(self)@,
            },
    {
        let display_name = trim(name);
        let truncated_name = truncate_str(display_name, PROFILE_NAME_LIMIT);
        let ghost base = truncated_name@;
        let ghost profiles = self@.data.profiles;
        let mut actual_name = truncated_name.clone();
        let mut n: u32 = 0;
        while self.data.profiles.contains_key(actual_name.as_str())
            invariant
                self.wf(),
                self@ == old(self)@,
                self.mods_seq() == old(self).mods_seq(),
                profiles == self@.data.profiles,
                self.data.profiles.wf(),
                base == truncated_name@,
                base == truncated(trimmed(name@), PROFILE_NAME_LIMIT as nat),
                byte_len(trimmed(name@)) <= PROFILE_NAME_LIMIT ==> base == trimmed(name@),
                actual_name@ == candidate_name(base, n as nat),
                free_candidate(profiles, base, 0) == free_candidate(profiles, base, n as nat),
            decreases u32::MAX - n,
        {
            if n == u32::MAX {
                assert(free_candidate(profiles, base, (n + 1) as nat).is_none());
                assert(has_key(profiles, candidate_name(base, 0)));
                return None;
            }
            n = n + 1;
            let n_str = decimal_string(n);
            let used = n_str.as_str().as_bytes().len();
            let room = if used <= PROFILE_NAME_LIMIT {
                PROFILE_NAME_LIMIT - used
            } else {
                0
            };
            actual_name = truncate_str(truncated_name.as_str(), room);
            actual_name.append(n_str.as_str());
        }
        proof {
            lemma_candidate_name(trimmed(name@), n);
        }
        self.changed = true;
        let profile = Profile::new(String::from_str(display_name));
        let ghost mods_len = self@.data.mods.len();
        self.data.profiles.insert(actual_name.clone(), profile);
        proof {
            let after = self@.data.profiles;
            lemma_ascending(profiles, actual_name@);
            assert forall|k: int| 0 <= k < after.len() implies order_is_valid(
                (#[trigger] after[k]).1.mod_order,
                mods_len,
            ) by {
                let r = crate::instance::profiles::rank(profiles, actual_name@);
                if k < r {
                    assert(after[k] == profiles[k]);
                } else if k > r {
                    assert(after[k] == profiles[k - 1]);
                }
            }
            let c = key_position(profiles, self@.current_profile);
            let r = crate::instance::profiles::rank(profiles, actual_name@);
            let c2 = if c < r {
                c
            } else {
                c + 1
            };
            assert(after[c2].0 == self@.current_profile);
        }
        Some(actual_name)
    }

    /// Creates a new mod with the specified name, as the last mod of the mod
    /// list and, disabled, as the last entry of the current profile's mod
    /// order.
    ///
    /// The path of the directory that the mod is to have is returned, for the
    /// caller to make; a separator has no directory. Where the directory
    /// cannot be made, the caller takes the mod back with
    /// [`EditableInstance::remove_mod`].
    pub fn create_mod(&mut self, name: &str, kind: ModEntryKind) -> (r: Result<
        Option<String>,
        CreateModError,
    >)
        requires
            old(self).wf(),
            old(self)@.data.mods.len() <= u32::MAX,
        ensures
            final(self).wf(),
            if name_is_taken(old(self).mods_seq(), name@) {
                r == Err::<Option<String>, CreateModError>(CreateModError::AlreadyExists)
                    && final(self)@ == old(self)@ && final(self).mods_seq() == old(self).mods_seq()
            } else {
                match name_error(name@) {
                    Some(e) => r == Err::<Option<String>, CreateModError>(
                        CreateModError::InvalidName(e),
                    ) && final(self)@ == old(self)@ && final(self).mods_seq() == old(self).mods_seq(),
                    None => {
                        &&& r matches Ok(dir)
                        &&& optional_view(dir) == directory_of(
                            old(self).dir_seq(),
                            final(self).mods_seq().last(),
                        )
                        &&& final(self).mods_seq().len() == old(self).mods_seq().len() + 1
                        &&& final(self).mods_seq().drop_last() == old(self).mods_seq()
                        &&& final(self).mods_seq().last()@ == (crate::instance::ModDeclarationView {
                            name: name@,
                            kind,
                        })
                        &&& final(self)@ == (EditableInstanceView {
                            data: InstanceDataView {
                                mods: mods_view(final(self).mods_seq()),
                                profiles: with_order(
                                    old(self)@.data.profiles,
                                    old(self)@.current_profile,
                                    old(self).current_order().push(
                                        disabled_entry(old(self).mods_seq().len() as int),
                                    ),
                                ),
                            },
                            changed: true,
                            ..old(self)@
                        })
                    },
                }
            },
    {
        if self.has_mod_named(name) {
            return Err(CreateModError::AlreadyExists);
        }
        let declaration = match ModDeclaration::new(String::from_str(name), kind) {
            Ok(declaration) => declaration,
            Err(e) => {
                return Err(CreateModError::InvalidName(e));
            },
        };
        let i = self.current_index();
        let ghost before = self@.data.profiles;
        let ghost old_mods = declarations_held(self.data.mods);
        self.changed = true;
        let index = ModIndex(declarations_of(&self.data.mods).len() as u32);
        let dir = self.directory(&declaration);
        declarations_of_mut(&mut self.data.mods).push(declaration);
        let mut order = self.data.profiles.replace_order(i, Vec::new());
        let ghost old_order = order@;
        order.push(ModOrderEntry::new(index));
        let ghost new_order = order@;
        let _ = self.data.profiles.replace_order(i, order);
        proof {
            let after = self@.data.profiles;
            let mods_len = declarations_held(self.data.mods).len();
            assert(declarations_held(self.data.mods).drop_last() =~= old_mods);
            assert(after =~= with_order(before, self@.current_profile, new_order));
            assert(after[i as int].0 == self@.current_profile);
            assert(order_is_valid(old_order, (mods_len - 1) as nat));
            assert forall|k: int| 0 <= k < after.len() implies order_is_valid(
                (#[trigger] after[k]).1.mod_order,
                mods_len,
            ) by {
                if k != i {
                    assert(after[k] == before[k]);
                    assert(order_is_valid(before[k].1.mod_order, (mods_len - 1) as nat));
                } else {
                    assert forall|a: int, b: int| 0 <= a < b < new_order.len() implies (
                    #[trigger] new_order[a]).index != (#[trigger] new_order[b]).index by {
                        assert(old_order[a].index.0 < mods_len - 1);
                        if b < old_order.len() {
                            assert(old_order[a].index != old_order[b].index);
                        }
                    }
                    assert forall|a: int| 0 <= a < new_order.len() implies (
                    #[trigger] new_order[a]).index.0 < mods_len by {
                        if a < old_order.len() {
                            assert(old_order[a].index.0 < mods_len - 1);
                        }
                    }
                }
            }
            assert(mods_view(declarations_held(self.data.mods)) =~= self@.data.mods);
        }
        Ok(dir)
    }

    /// Removes the specified mod: its declaration leaves the mod list and
    /// its entry leaves the mod order of every profile; an entry for a mod
    /// behind it names the index one lower from now on.
    ///
    /// The mod's files are not deleted. This function returns the path to
    /// the mod directory, if the mod has one, so that the caller can delete
    /// the files.
    pub fn remove_mod(&mut self, idx: ModIndex) -> (r: Option<String>)
        requires
            old(self).wf(),
            idx.0 < old(self).mods_seq().len(),
        ensures
            final(self).wf(),
            final(self).mods_seq() == old(self).mods_seq().remove(idx.0 as int),
            optional_view(r) == directory_of(
                old(self).dir_seq(),
                old(self).mods_seq()[idx.0 as int],
            ),
            final(self)@ == (EditableInstanceView {
                data: InstanceDataView {
                    mods: old(self)@.data.mods.remove(idx.0 as int),
                    profiles: profiles_without(old(self)@.data.profiles, idx),
                },
                changed: true,
                ..old(self)@
            }),
    {
        self.changed = true;
        let ghost before = self@.data.profiles;
        let ghost mods_len = self@.data.mods.len();
        let mut i: usize = 0;
        while i < self.data.profiles.len()
            invariant
                i <= before.len(),
                self.data.profiles.wf(),
                self@.data.profiles.len() == before.len(),
                self@.dir == old(self)@.dir,
                self.dir_seq() == old(self).dir_seq(),
                self@.current_profile == old(self)@.current_profile,
                self@.changed,
                self.data.mods == old(self).data.mods,
                forall|k: int|
                    0 <= k < i ==> #[trigger] self@.data.profiles[k] == profiles_without(
                        before,
                        idx,
                    )[k],
                forall|k: int|
                    i <= k < before.len() ==> #[trigger] self@.data.profiles[k] == before[k],
            decreases before.len() - i,
        {
            let order = remove_from_order(
                entries_of(&self.data.profiles.profile_at(i).mod_order),
                idx,
            );
            let _ = self.data.profiles.replace_order(i, order);
            i = i + 1;
        }
        let declaration = declarations_of_mut(&mut self.data.mods).remove(idx.as_usize());
        proof {
            let after = self@.data.profiles;
            assert(after =~= profiles_without(before, idx));
            assert(mods_view(declarations_held(self.data.mods)) =~= old(self)@.data.mods.remove(
                idx.0 as int,
            ));
            assert forall|k: int| 0 <= k < after.len() implies order_is_valid(
                (#[trigger] after[k]).1.mod_order,
                (mods_len - 1) as nat,
            ) by {
                assert(order_is_valid(before[k].1.mod_order, mods_len));
                lemma_order_without_is_valid(before[k].1.mod_order, idx, mods_len);
            }
            let c = key_position(before, self@.current_profile);
            assert(after[c].0 == self@.current_profile);
        }
        let r = self.directory(&declaration);
        r
    }

    /// Whether the specified mod can be given the name `new_name`, and what
    /// is to be done on disk for it: the directory of the mod, if it has
    /// one, is to be renamed, from the first of the two paths to the
    /// second.
    pub fn check_rename_mod(&self, idx: ModIndex, new_name: &str) -> (r: Result<
        Option<(String, String)>,
        RenameModError,
    >)
        requires
            self.wf(),
            idx.0 < self.mods_seq().len(),
        ensures
            if name_is_taken(self.mods_seq(), new_name@) {
                r == Err::<Option<(String, String)>, RenameModError>(RenameModError::AlreadyExists)
            } else {
                match name_error(new_name@) {
                    Some(e) => r == Err::<Option<(String, String)>, RenameModError>(
                        RenameModError::InvalidName(e),
                    ),
                    None => (r matches Ok(paths) && match paths {
                        Some((from, to)) => self.mods_seq()[idx.0 as int].kind == ModEntryKind::Mod
                            && from@ == mod_dir_path(
                            self.dir_seq(),
                            self.mods_seq()[idx.0 as int].name@,
                        ) && to@ == mod_dir_path(self.dir_seq(), new_name@),
                        None => self.mods_seq()[idx.0 as int].kind != ModEntryKind::Mod,
                    }),
                }
            },
    {
        if self.has_mod_named(new_name) {
            return Err(RenameModError::AlreadyExists);
        }
        match ModDeclaration::check_name(new_name) {
            Some(e) => {
                return Err(RenameModError::InvalidName(e));
            },
            None => {},
        }
        let declaration = &declarations_of(&self.data.mods)[idx.as_usize()];
        match declaration.kind() {
            ModEntryKind::Mod => {
                let from = mod_dir(self, declaration);
                let mods_dir = join_path(self.dir.as_str(), crate::instance::MODS_DIR_NAME);
                let to = join_path(mods_dir.as_str(), new_name);
                Ok(Some((from, to)))
            },
            ModEntryKind::Separator => Ok(None),
        }
    }

    /// Renames the specified mod in the mod list. The directory of the mod
    /// is renamed by the caller, before this is called: see
    /// [`EditableInstance::check_rename_mod`].
    pub fn rename_mod(&mut self, idx: ModIndex, new_name: &str) -> (r: Result<(), RenameModError>)
        requires
            old(self).wf(),
            idx.0 < old(self).mods_seq().len(),
        ensures
            final(self).wf(),
            if name_is_taken(old(self).mods_seq(), new_name@) {
                r == Err::<(), RenameModError>(RenameModError::AlreadyExists) && final(self)@
                    == old(self)@ && final(self).mods_seq() == old(self).mods_seq()
            } else {
                match name_error(new_name@) {
                    Some(e) => r == Err::<(), RenameModError>(RenameModError::InvalidName(e))
                        && final(self)@ == old(self)@ && final(self).mods_seq() == old(self).mods_seq(),
                    None => {
                        &&& r.is_ok()
                        &&& final(self).mods_seq().len() == old(self).mods_seq().len()
                        &&& forall|k: int|
                            0 <= k < old(self).mods_seq().len() && k != idx.0 ==> final(self).mods_seq()[k] == old(self).mods_seq()[k]
                        &&& final(self)@ == (EditableInstanceView {
                            data: InstanceDataView {
                                mods: old(self)@.data.mods.update(
                                    idx.0 as int,
                                    crate::instance::ModDeclarationView {
                                        name: new_name@,
                                        kind: old(self)@.data.mods[idx.0 as int].kind,
                                    },
                                ),
                                profiles: old(self)@.data.profiles,
                            },
                            ..old(self)@
                        })
                    },
                }
            },
    {
        if self.has_mod_named(new_name) {
            return Err(RenameModError::AlreadyExists);
        }
        let kind = declarations_of(&self.data.mods)[idx.as_usize()].kind();
        let declaration = match ModDeclaration::new(String::from_str(new_name), kind) {
            Ok(declaration) => declaration,
            Err(e) => {
                return Err(RenameModError::InvalidName(e));
            },
        };
        let ghost before = declarations_held(self.data.mods);
        let mods = declarations_of_mut(&mut self.data.mods);
        mods[idx.as_usize()] = declaration;
        proof {
            assert(mods_view(declarations_held(self.data.mods)) =~= mods_view(before).update(
                idx.0 as int,
                crate::instance::ModDeclarationView { name: new_name@, kind },
            ));
        }
        Ok(())
    }
}

} // verus!
