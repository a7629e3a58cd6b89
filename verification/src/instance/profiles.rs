//! The profiles of an instance, kept by name in ascending order.

use vstd::prelude::*;
use vstd::string::*;
use crate::instance::lists::{entries_held, entries_of_mut};
use crate::instance::{ModOrderEntry, Profile, ProfileView};
use crate::text::{lemma_name_order, name_less, str_equal, str_less};

verus! {

/// A profile under its name.
#[derive(Debug, PartialEq, Eq)]
pub struct ProfileEntry {
    pub name: String,
    pub profile: Profile,
}

/// The profiles of an instance: a map from names to profiles that hands out
/// its entries in the ascending order of the names.
#[derive(Debug, PartialEq, Eq)]
pub struct Profiles {
    entries: Vec<ProfileEntry>,
}

/// The entries of a map of profiles, as names and what the profiles say.
pub type ProfilesView = Seq<(Seq<char>, ProfileView)>;

/// Whether the names of the entries ascend strictly, so that no name occurs
/// twice.
pub open spec fn keys_ascending(v: ProfilesView) -> bool {
    forall|i: int, j: int| 0 <= i < j < v.len() ==> name_less(#[trigger] v[i].0, #[trigger] v[j].0)
}

/// Whether an entry is called `name`.
pub open spec fn has_key(v: ProfilesView, name: Seq<char>) -> bool {
    exists|i: int| 0 <= i < v.len() && #[trigger] v[i].0 == name
}

/// The position of the entry that is called `name`.
pub open spec fn key_position(v: ProfilesView, name: Seq<char>) -> int {
    choose|i: int| 0 <= i < v.len() && #[trigger] v[i].0 == name
}

/// The profile that is called `name`, if there is one.
pub open spec fn lookup(v: ProfilesView, name: Seq<char>) -> Option<ProfileView> {
    if has_key(v, name) {
        Some(v[key_position(v, name)].1)
    } else {
        None
    }
}

/// The number of entries whose names come before `name`.
pub open spec fn rank(v: ProfilesView, name: Seq<char>) -> int
    decreases v.len(),
{
    if v.len() == 0 {
        0
    } else if name_less(v.last().0, name) {
        rank(v.drop_last(), name) + 1
    } else {
        rank(v.drop_last(), name)
    }
}

/// The entries after `profile` was put under `name`: in the place of the
/// entry of that name, or else where the order of the names asks for it.
pub open spec fn with_entry(v: ProfilesView, name: Seq<char>, profile: ProfileView) -> ProfilesView {
    if has_key(v, name) {
        v.update(key_position(v, name), (name, profile))
    } else {
        v.insert(rank(v, name), (name, profile))
    }
}

/// The entries without the one called `name`.
pub open spec fn without_entry(v: ProfilesView, name: Seq<char>) -> ProfilesView {
    if has_key(v, name) {
        v.remove(key_position(v, name))
    } else {
        v
    }
}

/// In ascending entries a name has one place, and the entries before the rank
/// of a name are those whose names come before it.
pub proof fn lemma_ascending(v: ProfilesView, name: Seq<char>)
    requires
        keys_ascending(v),
    ensures
        0 <= rank(v, name) <= v.len(),
        forall|i: int| 0 <= i < rank(v, name) ==> name_less(#[trigger] v[i].0, name),
        forall|i: int| rank(v, name) <= i < v.len() ==> !name_less(#[trigger] v[i].0, name),
        forall|i: int| 0 <= i < v.len() && #[trigger] v[i].0 == name ==> i == rank(v, name),
        has_key(v, name) ==> key_position(v, name) == rank(v, name),
    decreases v.len(),
{
    if v.len() > 0 {
        let w = v.drop_last();
        lemma_ascending(w, name);
        let last = v.len() - 1;
        assert forall|i: int| 0 <= i < last implies #[trigger] v[i] == w[i] by {}
        if name_less(v.last().0, name) {
            assert forall|i: int| 0 <= i < v.len() implies name_less(#[trigger] v[i].0, name) by {
                if i < last {
                    lemma_name_order(v[i].0, v[last].0, name);
                }
            }
            assert(rank(w, name) == last) by {
                if rank(w, name) < last {
                    let r = rank(w, name);
                    assert(!name_less(w[r].0, name));
                    assert(v[r] == w[r]);
                }
            }
        } else {
            assert forall|i: int| rank(v, name) <= i < v.len() implies !name_less(
                #[trigger] v[i].0,
                name,
            ) by {
                if i < last {
                    assert(v[i] == w[i]);
                }
            }
        }
        assert forall|i: int| 0 <= i < v.len() && #[trigger] v[i].0 == name implies i == rank(
            v,
            name,
        ) by {
            lemma_name_order(v[i].0, name, name);
            let r = rank(v, name);
            if i < r {
                assert(name_less(v[i].0, name));
            } else if i > r {
                assert(!name_less(v[r].0, name));
                lemma_name_order(v[r].0, v[i].0, name);
            }
        }
    }
}

impl View for Profiles {
    type V = ProfilesView;

    closed spec fn view(&self) -> ProfilesView {
        Seq::new(self.entries@.len(), |i: int| (self.entries@[i].name@, self.entries@[i].profile@))
    }
}

impl Profiles {
    /// Whether the map is in order: the names of its entries ascend.
    pub open spec fn wf(&self) -> bool {
        keys_ascending(self@)
    }

    /// No profiles.
    pub fn new() -> (r: Profiles)
        ensures
            r@ == Seq::<(Seq<char>, ProfileView)>::empty(),
            r.wf(),
    {
        let r = Profiles { entries: Vec::new() };
        assert(r@ =~= Seq::<(Seq<char>, ProfileView)>::empty());
        r
    }

    /// The number of profiles.
    pub fn len(&self) -> (r: usize)
        ensures
            r == self@.len(),
    {
        self.entries.len()
    }

    /// The name of the profile at `index`, counted in ascending order of the
    /// names.
    pub fn name_at(&self, index: usize) -> (r: &String)
        requires
            index < self@.len(),
        ensures
            r@ == self@[index as int].0,
    {
        &self.entries[index].name
    }

    /// The profile at `index`, counted in ascending order of the names.
    pub fn profile_at(&self, index: usize) -> (r: &Profile)
        requires
            index < self@.len(),
        ensures
            r@ == self@[index as int].1,
    {
        &self.entries[index].profile
    }

    /// The number of profiles whose names come before `name`: the index of
    /// the profile of that name, if there is one.
    fn rank_of(&self, name: &str) -> (r: usize)
        requires
            self.wf(),
        ensures
            r == rank(self@, name@),
            r <= self@.len(),
    {
        proof {
            lemma_ascending(self@, name@);
        }
        let mut i: usize = 0;
        while i < self.entries.len() && str_less(self.entries[i].name.as_str(), name)
            invariant
                i <= self.entries@.len(),
                self@.len() == self.entries@.len(),
                forall|k: int| 0 <= k < self@.len() ==> (#[trigger] self@[k]).0 == self.entries@[k].name@,
                forall|k: int| 0 <= k < i ==> name_less(#[trigger] self@[k].0, name@),
            decreases self.entries@.len() - i,
        {
            i = i + 1;
        }
        proof {
            let r = rank(self@, name@);
            if i < r {
                assert(name_less(self@[i as int].0, name@));
            } else if i > r {
                assert(!name_less(self@[r].0, name@));
            }
        }
        i
    }

    /// The index of the profile called `name`, counted in ascending order of
    /// the names.
    pub fn position(&self, name: &str) -> (r: Option<usize>)
        requires
            self.wf(),
        ensures
            match r {
                Some(i) => i < self@.len() && self@[i as int].0 == name@ && has_key(self@, name@)
                    && key_position(self@, name@) == i,
                None => !has_key(self@, name@),
            },
    {
        let i = self.rank_of(name);
        proof {
            lemma_ascending(self@, name@);
        }
        if i < self.entries.len() && str_equal(self.entries[i].name.as_str(), name) {
            assert(self@[i as int].0 == name@);
            Some(i)
        } else {
            None
        }
    }

    /// Whether there is a profile called `name`.
    pub fn contains_key(&self, name: &str) -> (r: bool)
        requires
            self.wf(),
        ensures
            r == has_key(self@, name@),
    {
        self.position(name).is_some()
    }

    /// The profile called `name`.
    pub fn get(&self, name: &str) -> (r: Option<&Profile>)
        requires
            self.wf(),
        ensures
            match r {
                Some(p) => lookup(self@, name@) == Some(p@),
                None => lookup(self@, name@).is_none(),
            },
    {
        match self.position(name) {
            Some(i) => Some(&self.entries[i].profile),
            None => None,
        }
    }

    /// Puts `profile` under `name`, in the place of the profile that had that
    /// name, if there was one.
    pub fn insert(&mut self, name: String, profile: Profile)
        requires
            old(self).wf(),
        ensures
            final(self)@ == with_entry(old(self)@, name@, profile@),
            final(self).wf(),
    {
        let i = self.rank_of(name.as_str());
        let ghost before = self@;
        proof {
            lemma_ascending(before, name@);
        }
        if i < self.entries.len() && str_equal(self.entries[i].name.as_str(), name.as_str()) {
            assert(before[i as int].0 == name@);
            self.entries[i].profile = profile;
            assert(self@ =~= before.update(i as int, (name@, profile@)));
            assert(keys_ascending(self@)) by {
                assert forall|a: int, b: int| 0 <= a < b < self@.len() implies name_less(
                    #[trigger] self@[a].0,
                    #[trigger] self@[b].0,
                ) by {
                    assert(self@[a].0 == before[a].0);
                    assert(self@[b].0 == before[b].0);
                }
            }
        } else {
            assert(!has_key(before, name@)) by {
                if has_key(before, name@) {
                    let k = key_position(before, name@);
                    assert(k == i);
                }
            }
            self.entries.insert(i, ProfileEntry { name, profile });
            assert(self@ =~= before.insert(i as int, (name@, profile@)));
            assert(keys_ascending(self@)) by {
                assert forall|a: int, b: int| 0 <= a < b < self@.len() implies name_less(
                    #[trigger] self@[a].0,
                    #[trigger] self@[b].0,
                ) by {
                    let x = if a < i { a } else { a - 1 };
                    let y = if b < i { b } else { b - 1 };
                    if a == i {
                        assert(self@[b].0 == before[y].0);
                        lemma_name_order(before[y].0, name@, name@);
                        if y > i {
                            lemma_name_order(name@, before[i as int].0, before[y].0);
                            lemma_name_order(before[i as int].0, name@, name@);
                        }
                    } else if b == i {
                        assert(self@[a].0 == before[x].0);
                    } else {
                        assert(self@[a].0 == before[x].0);
                        assert(self@[b].0 == before[y].0);
                    }
                }
            }
        }
    }

    /// Takes the profile called `name` out.
    pub fn remove(&mut self, name: &str) -> (r: Option<Profile>)
        requires
            old(self).wf(),
        ensures
            final(self)@ == without_entry(old(self)@, name@),
            final(self).wf(),
            match r {
                Some(p) => lookup(old(self)@, name@) == Some(p@),
                None => lookup(old(self)@, name@).is_none(),
            },
    {
        let ghost before = self@;
        match self.position(name) {
            Some(i) => {
                let entry = self.entries.remove(i);
                assert(self@ =~= before.remove(i as int));
                assert(keys_ascending(self@)) by {
                    assert forall|a: int, b: int| 0 <= a < b < self@.len() implies name_less(
                        #[trigger] self@[a].0,
                        #[trigger] self@[b].0,
                    ) by {
                        let x = if a < i { a } else { a + 1 };
                        let y = if b < i { b } else { b + 1 };
                        assert(self@[a].0 == before[x].0);
                        assert(self@[b].0 == before[y].0);
                    }
                }
                Some(entry.profile)
            },
            None => None,
        }
    }

    /// Takes out the profile whose name comes first.
    pub fn pop_first(&mut self) -> (r: Option<(String, Profile)>)
        requires
            old(self).wf(),
        ensures
            final(self).wf(),
            match r {
                Some((name, profile)) => old(self)@.len() > 0 && (name@, profile@) == old(self)@[0]
                    && final(self)@ == old(self)@.drop_first(),
                None => old(self)@.len() == 0 && final(self)@ == old(self)@,
            },
    {
        let ghost before = self@;
        if self.entries.len() == 0 {
            None
        } else {
            let entry = self.entries.remove(0);
            assert(self@ =~= before.drop_first());
            assert(keys_ascending(self@)) by {
                assert forall|a: int, b: int| 0 <= a < b < self@.len() implies name_less(
                    #[trigger] self@[a].0,
                    #[trigger] self@[b].0,
                ) by {
                    assert(self@[a].0 == before[a + 1].0);
                    assert(self@[b].0 == before[b + 1].0);
                }
            }
            Some((entry.name, entry.profile))
        }
    }

    /// Gives the profile at `index` the mod order `order`, and hands back the
    /// one that it had.
    pub fn replace_order(&mut self, index: usize, order: Vec<ModOrderEntry>) -> (r: Vec<
        ModOrderEntry,
    >)
        requires
            old(self).wf(),
            index < old(self)@.len(),
        ensures
            r@ == old(self)@[index as int].1.mod_order,
            final(self)@ == old(self)@.update(
                index as int,
                (
                    old(self)@[index as int].0,
                    ProfileView {
                        display_name: old(self)@[index as int].1.display_name,
                        mod_order: order@,
                    },
                ),
            ),
            final(self).wf(),
    {
        let ghost before = self@;
        let mut order = order;
        core::mem::swap(entries_of_mut(&mut self.entries[index].profile.mod_order), &mut order);
        assert(self@ =~= before.update(
            index as int,
            (
                before[index as int].0,
                ProfileView {
                    display_name: before[index as int].1.display_name,
                    mod_order: entries_held(self.entries@[index as int].profile.mod_order),
                },
            ),
        ));
        assert(keys_ascending(self@)) by {
            assert forall|a: int, b: int| 0 <= a < b < self@.len() implies name_less(
                #[trigger] self@[a].0,
                #[trigger] self@[b].0,
            ) by {
                assert(self@[a].0 == before[a].0);
                assert(self@[b].0 == before[b].0);
            }
        }
        order
    }
}

} // verus!
