//! The instance as the deployer opens it: read-only, with one profile
//! chosen.

use vstd::prelude::*;
use vstd::string::*;
use crate::instance::data::{InstanceData, InstanceDataOpenError};
use crate::instance::format::loaded_from;
use crate::instance::lists::{ModList, declarations_held, declarations_of, entries_of};
use crate::instance::profiles::{ProfilesView, has_key, lookup};
use crate::instance::{DEFAULT_PROFILE_NAME, Instance, ModDeclaration, ModOrderEntry, Profile};
use crate::instance::{ProfileView, order_is_valid};

verus! {

/// An instance opened for deployment.
#[derive(Debug, PartialEq, Eq)]
pub struct DeployInstance {
    dir: String,
    mods: ModList,
    profile: Profile,
}

/// Error type returned where an instance cannot be opened for deployment.
#[derive(Debug, Clone, PartialEq, Eq)]
pub enum DeployInstanceOpenError {
    /// The instance has no profiles.
    NoProfiles,
    /// The instance has no profile of the name that was asked for.
    ProfileNotFound(String),
    /// The instance data could not be had.
    DataOpen(InstanceDataOpenError),
}

/// What a [`DeployInstanceOpenError`] says.
pub enum DeployInstanceOpenErrorView {
    NoProfiles,
    ProfileNotFound(Seq<char>),
    DataOpen(InstanceDataOpenError),
}

impl View for DeployInstanceOpenError {
    type V = DeployInstanceOpenErrorView;

    open spec fn view(&self) -> DeployInstanceOpenErrorView {
        match self {
            DeployInstanceOpenError::NoProfiles => DeployInstanceOpenErrorView::NoProfiles,
            DeployInstanceOpenError::ProfileNotFound(name) => DeployInstanceOpenErrorView::ProfileNotFound(
                name@,
            ),
            DeployInstanceOpenError::DataOpen(e) => DeployInstanceOpenErrorView::DataOpen(*e),
        }
    }
}

/// The profile that is deployed: the one that was asked for by name; where
/// none was asked for, the profile called `default`, or else the profile
/// whose name comes first.
pub open spec fn chosen_profile(profiles: ProfilesView, name: Option<Seq<char>>) -> Result<
    ProfileView,
    DeployInstanceOpenErrorView,
> {
    match name {
        Some(n) => match lookup(profiles, n) {
            Some(profile) => Ok(profile),
            None => Err(DeployInstanceOpenErrorView::ProfileNotFound(n)),
        },
        None => match lookup(profiles, DEFAULT_PROFILE_NAME@) {
            Some(profile) => Ok(profile),
            None => if profiles.len() > 0 {
                Ok(profiles[0].1)
            } else {
                Err(DeployInstanceOpenErrorView::NoProfiles)
            },
        },
    }
}

/// What an optional name says.
pub open spec fn optional_name(name: Option<&str>) -> Option<Seq<char>> {
    match name {
        Some(n) => Some(n@),
        None => None,
    }
}

impl DeployInstance {
    /// The instance's base directory.
    pub closed spec fn dir_view(&self) -> Seq<char> {
        self.dir@
    }

    /// The mod list.
    pub closed spec fn mods_view(&self) -> Seq<ModDeclaration> {
        declarations_held(self.mods)
    }

    /// The chosen profile.
    pub closed spec fn profile_view(&self) -> ProfileView {
        self.profile@
    }

    /// Whether the mod order of the chosen profile fits the mod list.
    pub closed spec fn wf(&self) -> bool {
        order_is_valid(self.profile@.mod_order, declarations_held(self.mods).len())
    }

    /// Opens the instance in the directory `dir` whose instance data file
    /// holds `bytes`, with the profile called `profile_name`, or with the
    /// default profile where no name is given.
    pub fn open(dir: String, bytes: &[u8], profile_name: Option<&str>) -> (r: Result<
        DeployInstance,
        DeployInstanceOpenError,
    >)
        ensures
            match loaded_from(bytes@) {
                Ok(data) => match chosen_profile(data.profiles, optional_name(profile_name)) {
                    Ok(profile) => (r matches Ok(instance) && instance.wf() && instance.dir_view()
                        == dir@ && crate::instance::data::mods_view(instance.mods_view())
                        == data.mods && instance.profile_view() == profile),
                    Err(e) => (r matches Err(error) && error@ == e),
                },
                Err(e) => (r matches Err(error) && error@ == DeployInstanceOpenErrorView::DataOpen(
                    e,
                )),
            },
    {
        match InstanceData::from_bytes(bytes) {
            Ok(data) => Self::from_data(dir, data, profile_name),
            Err(e) => Err(DeployInstanceOpenError::DataOpen(e)),
        }
    }

    /// Opens the instance in the directory `dir` with the given data, with
    /// the profile called `profile_name`, or with the default profile where
    /// no name is given.
    pub fn from_data(dir: String, data: InstanceData, profile_name: Option<&str>) -> (r: Result<
        DeployInstance,
        DeployInstanceOpenError,
    >)
        requires
            data.wf(),
        ensures
            match chosen_profile(data@.profiles, optional_name(profile_name)) {
                Ok(profile) => (r matches Ok(instance) && instance.wf() && instance.dir_view()
                    == dir@ && instance.mods_view() == declarations_held(data.mods)
                    && instance.profile_view()
                    == profile),
                Err(e) => (r matches Err(error) && error@ == e),
            },
    {
        let InstanceData { mods, profiles } = data;
        let mut profiles = profiles;
        let ghost before = profiles@;
        let found = match profile_name {
            Some(name) => match profiles.position(name) {
                Some(index) => Some(index),
                None => {
                    return Err(DeployInstanceOpenError::ProfileNotFound(String::from_str(name)));
                },
            },
            None => match profiles.position(DEFAULT_PROFILE_NAME) {
                Some(index) => Some(index),
                None => if profiles.len() > 0 {
                    Some(0)
                } else {
                    None
                },
            },
        };
        match found {
            Some(index) => {
                assert(order_is_valid(
                    before[index as int].1.mod_order,
                    declarations_held(mods).len(),
                ));
                let name = profiles.name_at(index).clone();
                proof {
                    crate::instance::profiles::lemma_ascending(before, name@);
                    assert(before[index as int].0 == name@);
                    assert(has_key(before, name@));
                    assert(lookup(before, name@) == Some(before[index as int].1));
                }
                match profiles.remove(name.as_str()) {
                    Some(profile) => Ok(DeployInstance { dir, mods, profile }),
                    None => Err(DeployInstanceOpenError::NoProfiles),
                }
            },
            None => Err(DeployInstanceOpenError::NoProfiles),
        }
    }
}

impl Instance for DeployInstance {
    open spec fn dir_spec(&self) -> Seq<char> {
        self.dir_view()
    }

    open spec fn mods_spec(&self) -> Seq<ModDeclaration> {
        self.mods_view()
    }

    open spec fn mod_order_spec(&self) -> Seq<ModOrderEntry> {
        self.profile_view().mod_order
    }

    open spec fn is_valid(&self) -> bool {
        self.wf()
    }

    proof fn lemma_valid_order(&self) {
    }

    fn dir(&self) -> (r: &str) {
        self.dir.as_str()
    }

    fn mods(&self) -> (r: &Vec<ModDeclaration>) {
        declarations_of(&self.mods)
    }

    fn mod_order(&self) -> (r: &Vec<ModOrderEntry>) {
        entries_of(&self.profile.mod_order)
    }
}

} // verus!
