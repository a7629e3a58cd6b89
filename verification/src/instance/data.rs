//! The data of an instance as it is kept on disk, and the check that it is
//! consistent.

use vstd::prelude::*;
use crate::instance::order_is_valid;
use crate::instance::lists::{ModList, declarations_held, declarations_of, entries_of};
use crate::instance::{ModDeclaration, ModDeclarationView, ModOrderEntry, Profile};
use crate::instance::profiles::{Profiles, ProfilesView, keys_ascending};

verus! {

/// File name of the instance data file in the instance's root directory.
pub const INSTANCE_DATA_FILE: &'static str = "mmm.cbor";

/// The one version of the instance data that is read and written.
pub const INSTANCE_DATA_VERSION: u32 = 0;

/// Why instance data is not consistent.
#[derive(Copy, Clone, Debug, PartialEq, Eq, Structural)]
pub enum InstanceDataVerificationError {
    /// A mod order names a mod twice.
    DuplicateModIndex,
    /// A mod order names a mod that the mod list does not have.
    ModIndexOutOfRange,
}

/// Why instance data could not be had from its bytes.
#[derive(Copy, Clone, Debug, PartialEq, Eq, Structural)]
pub enum InstanceDataOpenError {
    /// The bytes are not instance data.
    Deserialize,
    /// The bytes are instance data that is not consistent.
    InvalidData(InstanceDataVerificationError),
    /// The bytes are instance data of another version.
    UnsupportedVersion(u32),
}

/// What instance data says: the mod list, and the profiles by ascending
/// name.
pub struct InstanceDataView {
    pub mods: Seq<ModDeclarationView>,
    pub profiles: ProfilesView,
}

/// What a mod list says.
pub open spec fn mods_view(mods: Seq<ModDeclaration>) -> Seq<ModDeclarationView> {
    Seq::new(mods.len(), |i: int| mods[i]@)
}

/// Whether every profile's mod order fits a mod list of `mods_len` mods.
pub open spec fn profiles_are_valid(profiles: ProfilesView, mods_len: nat) -> bool {
    forall|i: int|
        0 <= i < profiles.len() ==> order_is_valid((#[trigger] profiles[i]).1.mod_order, mods_len)
}

/// Whether what instance data says is consistent: the profiles are in order,
/// every entry of every mod order names a mod of the mod list, and no mod
/// order names a mod twice.
pub open spec fn data_is_valid(data: InstanceDataView) -> bool {
    keys_ascending(data.profiles) && profiles_are_valid(data.profiles, data.mods.len())
}

/// The first fault of a mod order, going through its entries in order: an
/// entry that names no mod of the list, or one that names a mod that an
/// earlier entry named.
pub open spec fn order_error(order: Seq<ModOrderEntry>, mods_len: nat) -> Option<
    InstanceDataVerificationError,
>
    decreases order.len(),
{
    if order.len() == 0 {
        None
    } else {
        let earlier = order.drop_last();
        match order_error(earlier, mods_len) {
            Some(e) => Some(e),
            None => {
                if order.last().index.0 >= mods_len {
                    Some(InstanceDataVerificationError::ModIndexOutOfRange)
                } else if exists|j: int|
                    0 <= j < earlier.len() && (#[trigger] earlier[j]).index == order.last().index {
                    Some(InstanceDataVerificationError::DuplicateModIndex)
                } else {
                    None
                }
            },
        }
    }
}

/// The first fault among the profiles, going through them by ascending name.
pub open spec fn profiles_error(profiles: ProfilesView, mods_len: nat) -> Option<
    InstanceDataVerificationError,
>
    decreases profiles.len(),
{
    if profiles.len() == 0 {
        None
    } else {
        match profiles_error(profiles.drop_last(), mods_len) {
            Some(e) => Some(e),
            None => order_error(profiles.last().1.mod_order, mods_len),
        }
    }
}

/// A mod order has no fault exactly if it is valid.
pub proof fn lemma_order_error(order: Seq<ModOrderEntry>, mods_len: nat)
    ensures
        order_error(order, mods_len).is_none() <==> order_is_valid(order, mods_len),
    decreases order.len(),
{
    if order.len() > 0 {
        let earlier = order.drop_last();
        let last = order.len() - 1;
        lemma_order_error(earlier, mods_len);
        assert forall|i: int| 0 <= i < last implies earlier[i] == order[i] by {}
        if order_is_valid(order, mods_len) {
            assert(order_is_valid(earlier, mods_len)) by {
                assert forall|i: int| 0 <= i < earlier.len() implies (#[trigger] earlier[i]).index.0
                    < mods_len by {
                    assert(order[i].index.0 < mods_len);
                }
                assert forall|i: int, j: int| 0 <= i < j < earlier.len() implies (
                #[trigger] earlier[i]).index != (#[trigger] earlier[j]).index by {
                    assert(order[i].index != order[j].index);
                }
            }
            assert(order[last].index.0 < mods_len);
            assert forall|j: int| 0 <= j < earlier.len() implies (#[trigger] earlier[j]).index
                != order.last().index by {
                assert(order[j].index != order[last].index);
            }
        }
        if order_error(order, mods_len).is_none() {
            assert forall|i: int| 0 <= i < order.len() implies (#[trigger] order[i]).index.0
                < mods_len by {
                if i < last {
                    assert(earlier[i].index.0 < mods_len);
                }
            }
            assert forall|i: int, j: int| 0 <= i < j < order.len() implies (
            #[trigger] order[i]).index != (#[trigger] order[j]).index by {
                if j < last {
                    assert(earlier[i].index != earlier[j].index);
                } else {
                    assert(earlier[i].index != order.last().index);
                }
            }
        }
    }
}

/// The profiles have no fault exactly if each of them is valid.
pub proof fn lemma_profiles_error(profiles: ProfilesView, mods_len: nat)
    ensures
        profiles_error(profiles, mods_len).is_none() <==> profiles_are_valid(profiles, mods_len),
    decreases profiles.len(),
{
    if profiles.len() > 0 {
        let earlier = profiles.drop_last();
        let last = profiles.len() - 1;
        lemma_profiles_error(earlier, mods_len);
        lemma_order_error(profiles.last().1.mod_order, mods_len);
        assert forall|i: int| 0 <= i < last implies earlier[i] == profiles[i] by {}
        if profiles_are_valid(profiles, mods_len) {
            assert(order_is_valid(profiles[last].1.mod_order, mods_len));
            assert forall|i: int| 0 <= i < earlier.len() implies order_is_valid(
                (#[trigger] earlier[i]).1.mod_order,
                mods_len,
            ) by {
                assert(order_is_valid(profiles[i].1.mod_order, mods_len));
            }
        }
        if profiles_error(profiles, mods_len).is_none() {
            assert forall|i: int| 0 <= i < profiles.len() implies order_is_valid(
                (#[trigger] profiles[i]).1.mod_order,
                mods_len,
            ) by {
                if i < last {
                    assert(order_is_valid(earlier[i].1.mod_order, mods_len));
                }
            }
        }
    }
}

/// Data contained in the instance data file.
///
/// Who modifies the data within is responsible for its integrity: the indices
/// must be kept in step with the mod list.
#[derive(Debug, PartialEq, Eq)]
pub struct InstanceData {
    pub mods: ModList,
    pub profiles: Profiles,
}

impl View for InstanceData {
    type V = InstanceDataView;

    open spec fn view(&self) -> InstanceDataView {
        InstanceDataView { mods: mods_view(declarations_held(self.mods)), profiles: self.profiles@ }
    }
}

impl InstanceData {
    /// Whether the data is consistent.
    pub open spec fn wf(&self) -> bool {
        data_is_valid(self@)
    }
}

/// Instance data as it was read, before it is known to be consistent.
#[derive(Debug, PartialEq, Eq)]
pub struct UnverifiedInstanceData {
    pub mods: ModList,
    pub profiles: Profiles,
}

impl View for UnverifiedInstanceData {
    type V = InstanceDataView;

    open spec fn view(&self) -> InstanceDataView {
        InstanceDataView { mods: mods_view(declarations_held(self.mods)), profiles: self.profiles@ }
    }
}

impl UnverifiedInstanceData {
    /// Checks that every mod order names each mod at most once and only mods
    /// of the mod list. The profiles are gone through by ascending name, the
    /// entries of each in their order, and the first fault found is the
    /// error.
    pub fn verify(self) -> (r: Result<InstanceData, InstanceDataVerificationError>)
        requires
            self.profiles.wf(),
        ensures
            match profiles_error(self@.profiles, self@.mods.len()) {
                Some(e) => r == Err::<InstanceData, InstanceDataVerificationError>(e),
                None => r.is_ok() && r.unwrap()@ == self@ && r.unwrap().wf(),
            },
    {
        let mods_len = declarations_of(&self.mods).len();
        let mut i: usize = 0;
        while i < self.profiles.len()
            invariant
                i <= self.profiles@.len(),
                mods_len == declarations_held(self.mods).len(),
                profiles_error(self.profiles@.take(i as int), mods_len as nat).is_none(),
            decreases self.profiles@.len() - i,
        {
            let checked = Self::verify_profile(self.profiles.profile_at(i), mods_len);
            proof {
                assert(self.profiles@.take(i + 1).drop_last() =~= self.profiles@.take(i as int));
            }
            match checked {
                Ok(()) => {},
                Err(e) => {
                    proof {
                        lemma_first_error(self.profiles@, mods_len as nat, i + 1);
                    }
                    return Err(e);
                },
            }
            i = i + 1;
        }
        proof {
            assert(self.profiles@.take(i as int) =~= self.profiles@);
            lemma_profiles_error(self.profiles@, mods_len as nat);
        }
        Ok(InstanceData { mods: self.mods, profiles: self.profiles })
    }

    /// Checks the mod order of one profile against a mod list of `mods_len`
    /// mods.
    pub fn verify_profile(profile: &Profile, mods_len: usize) -> (r: Result<
        (),
        InstanceDataVerificationError,
    >)
        ensures
            match order_error(profile@.mod_order, mods_len as nat) {
                Some(e) => r == Err::<(), InstanceDataVerificationError>(e),
                None => r == Ok::<(), InstanceDataVerificationError>(()),
            },
    {
        let order = entries_of(&profile.mod_order);
        let mut mods_present: Vec<bool> = vec![false; mods_len];
        let mut i: usize = 0;
        while i < order.len()
            invariant
                i <= order@.len(),
                order@ == profile@.mod_order,
                mods_present@.len() == mods_len,
                order_error(order@.take(i as int), mods_len as nat).is_none(),
                forall|k: int|
                    0 <= k < mods_len ==> (#[trigger] mods_present@[k] <==> exists|j: int|
                        0 <= j < i && (#[trigger] order@[j]).index.0 == k),
            decreases order@.len() - i,
        {
            let idx = order[i].mod_index().as_usize();
            let ghost upto = order@.take(i + 1);
            proof {
                assert(upto.drop_last() =~= order@.take(i as int));
                assert(upto.last() == order@[i as int]);
            }
            if idx >= mods_len {
                proof {
                    lemma_first_order_error(order@, mods_len as nat, i + 1);
                }
                return Err(InstanceDataVerificationError::ModIndexOutOfRange);
            }
            if mods_present[idx] {
                proof {
                    let j = choose|j: int| 0 <= j < i && (#[trigger] order@[j]).index.0 == idx;
                    assert(upto.drop_last()[j].index == upto.last().index);
                    lemma_first_order_error(order@, mods_len as nat, i + 1);
                }
                return Err(InstanceDataVerificationError::DuplicateModIndex);
            }
            proof {
                assert forall|j: int| 0 <= j < upto.drop_last().len() implies (
                #[trigger] upto.drop_last()[j]).index != upto.last().index by {
                    if upto.drop_last()[j].index == upto.last().index {
                        assert(order@[j].index.0 == idx);
                    }
                }
            }
            mods_present[idx] = true;
            i = i + 1;
        }
        proof {
            assert(order@.take(i as int) =~= order@);
        }
        Ok(())
    }
}

/// A fault of the first `n` entries is the fault of the whole mod order.
proof fn lemma_first_order_error(order: Seq<ModOrderEntry>, mods_len: nat, n: int)
    requires
        0 <= n <= order.len(),
        order_error(order.take(n), mods_len).is_some(),
    ensures
        order_error(order, mods_len) == order_error(order.take(n), mods_len),
    decreases order.len() - n,
{
    if n < order.len() {
        assert(order.take(n + 1).drop_last() =~= order.take(n));
        lemma_first_order_error(order, mods_len, n + 1);
    } else {
        assert(order.take(n) =~= order);
    }
}

/// A fault among the first `n` profiles is the fault of all of them.
proof fn lemma_first_error(profiles: ProfilesView, mods_len: nat, n: int)
    requires
        0 <= n <= profiles.len(),
        profiles_error(profiles.take(n), mods_len).is_some(),
    ensures
        profiles_error(profiles, mods_len) == profiles_error(profiles.take(n), mods_len),
    decreases profiles.len() - n,
{
    if n < profiles.len() {
        assert(profiles.take(n + 1).drop_last() =~= profiles.take(n));
        lemma_first_error(profiles, mods_len, n + 1);
    } else {
        assert(profiles.take(n) =~= profiles);
    }
}

} // verus!
