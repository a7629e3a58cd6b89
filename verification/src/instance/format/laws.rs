//! What is written is read back.

use vstd::prelude::*;
use vstd::string::*;
use crate::instance::data::{InstanceDataOpenError, InstanceDataView, data_is_valid};
use crate::instance::format::decode::{InstanceFields, ProfileFields, decoded_declaration};
use crate::instance::format::decode::{decoded_entry, decoded_mods, decoded_order, decoded_profile};
use crate::instance::format::decode::{decoded_profiles, instance_field, instance_fields, loaded};
use crate::instance::format::decode::{profile_field, profile_fields, profiles_of_entries};
use crate::instance::format::encode::{declaration_document, entry_document, instance_document};
use crate::instance::format::encode::{mods_document, order_document, profile_document};
use crate::instance::format::encode::profiles_document;
use crate::instance::profiles::{ProfilesView, keys_ascending, with_entry};
use crate::instance::{ModDeclarationView, ModOrderEntry, ProfileView};

verus! {

/// The names of the fields and of the kinds differ from one another.
proof fn lemma_field_names()
    ensures
        "i"@ != "e"@,
        "name"@ != "type"@,
        "Mod"@ != "Separator"@,
        "display_name"@ != "mod_order"@,
        "version"@ != "mods"@,
        "version"@ != "profiles"@,
        "mods"@ != "profiles"@,
{
    reveal_strlit("i");
    reveal_strlit("e");
    reveal_strlit("name");
    reveal_strlit("type");
    reveal_strlit("Mod");
    reveal_strlit("Separator");
    reveal_strlit("display_name");
    reveal_strlit("mod_order");
    reveal_strlit("version");
    reveal_strlit("mods");
    reveal_strlit("profiles");
    assert("i"@[0] != "e"@[0]);
    assert("name"@[0] != "type"@[0]);
    assert("Mod"@.len() != "Separator"@.len());
    assert("display_name"@[0] != "mod_order"@[0]);
    assert("version"@.len() != "mods"@.len());
    assert("version"@.len() != "profiles"@.len());
    assert("mods"@.len() != "profiles"@.len());
}

/// An entry is read back from its document.
pub proof fn lemma_entry_round_trip(entry: ModOrderEntry)
    ensures
        decoded_entry(entry_document(entry)) == Some(entry),
{
    lemma_field_names();
}

/// A declaration is read back from its document.
pub proof fn lemma_declaration_round_trip(declaration: ModDeclarationView)
    ensures
        decoded_declaration(declaration_document(declaration)) == Some(declaration),
{
    lemma_field_names();
}

/// A mod order is read back from its document.
pub proof fn lemma_order_round_trip(order: Seq<ModOrderEntry>)
    ensures
        decoded_order(order_document(order)) == Some(order),
{
    let items = order_document(order)->Array_0;
    assert forall|i: int| 0 <= i < items.len() implies decoded_entry(#[trigger] items[i]) == Some(
        order[i],
    ) by {
        lemma_entry_round_trip(order[i]);
    }
    assert(decoded_order(order_document(order))->Some_0 =~= order);
}

/// A mod list is read back from its document.
pub proof fn lemma_mods_round_trip(mods: Seq<ModDeclarationView>)
    ensures
        decoded_mods(mods_document(mods)) == Some(mods),
{
    let items = mods_document(mods)->Array_0;
    assert forall|i: int| 0 <= i < items.len() implies decoded_declaration(#[trigger] items[i])
        == Some(mods[i]) by {
        lemma_declaration_round_trip(mods[i]);
    }
    assert(decoded_mods(mods_document(mods))->Some_0 =~= mods);
}

/// A profile is read back from its document.
pub proof fn lemma_profile_round_trip(profile: ProfileView)
    ensures
        decoded_profile(profile_document(profile)) == Some(profile),
{
    lemma_field_names();
    lemma_order_round_trip(profile.mod_order);
    let es = profile_document(profile)->Table_0;
    let one = es.drop_last();
    let none = one.drop_last();
    assert(none.len() == 0);
    assert(one.last() == es[0]);
    assert(es.last() == es[1]);
    let start = ProfileFields { display_name: None, mod_order: None };
    assert(profile_fields(none) == Some(start));
    assert(profile_fields(one) == profile_field(start, es[0].0, es[0].1));
    assert(profile_fields(es) == profile_field(profile_fields(one).unwrap(), es[1].0, es[1].1));
}

/// Profiles whose names ascend are read back from their document.
pub proof fn lemma_profiles_round_trip(profiles: ProfilesView)
    requires
        keys_ascending(profiles),
    ensures
        decoded_profiles(profiles_document(profiles)) == Some(profiles),
    decreases profiles.len(),
{
    let es = profiles_document(profiles)->Table_0;
    if profiles.len() == 0 {
        assert(profiles_of_entries(es) == Some(Seq::<(Seq<char>, ProfileView)>::empty()));
        assert(profiles =~= Seq::empty());
    } else {
        let earlier = profiles.drop_last();
        let last = profiles.len() - 1;
        assert forall|i: int, j: int| 0 <= i < j < earlier.len() implies crate::text::name_less(
            #[trigger] earlier[i].0,
            #[trigger] earlier[j].0,
        ) by {
            assert(earlier[i] == profiles[i] && earlier[j] == profiles[j]);
        }
        lemma_profiles_round_trip(earlier);
        assert(es.drop_last() =~= profiles_document(earlier)->Table_0);
        lemma_profile_round_trip(profiles[last].1);
        let name = profiles[last].0;
        crate::instance::profiles::lemma_ascending(earlier, name);
        assert forall|i: int| 0 <= i < earlier.len() implies crate::text::name_less(
            #[trigger] earlier[i].0,
            name,
        ) by {
            assert(earlier[i] == profiles[i]);
        }
        assert(!crate::instance::profiles::has_key(earlier, name)) by {
            if crate::instance::profiles::has_key(earlier, name) {
                let k = crate::instance::profiles::key_position(earlier, name);
                crate::text::lemma_name_order(earlier[k].0, name, name);
            }
        }
        assert(crate::instance::profiles::rank(earlier, name) == earlier.len()) by {
            let r = crate::instance::profiles::rank(earlier, name);
            if r < earlier.len() {
                assert(!crate::text::name_less(earlier[r].0, name));
            }
        }
        assert(with_entry(earlier, name, profiles[last].1) =~= profiles);
    }
}

/// Loading gives back what was written: the document of consistent instance
/// data is read as that data.
pub proof fn lemma_round_trip(data: InstanceDataView)
    requires
        data_is_valid(data),
    ensures
        loaded(instance_document(data)) == Ok::<InstanceDataView, InstanceDataOpenError>(data),
{
    lemma_field_names();
    lemma_mods_round_trip(data.mods);
    lemma_profiles_round_trip(data.profiles);
    crate::instance::data::lemma_profiles_error(data.profiles, data.mods.len());
    let es = instance_document(data)->Table_0;
    let two = es.drop_last();
    let one = two.drop_last();
    let none = one.drop_last();
    assert(none.len() == 0);
    assert(one.last() == es[0]);
    assert(two.last() == es[1]);
    assert(es.last() == es[2]);
    let start = InstanceFields { version: false, mods: None, profiles: None };
    assert(instance_fields(none) == Ok::<InstanceFields, InstanceDataOpenError>(start));
    assert(instance_fields(one) == instance_field(start, es[0].0, es[0].1));
    assert(instance_fields(two) == instance_field(
        instance_fields(one).unwrap(),
        es[1].0,
        es[1].1,
    ));
    assert(instance_fields(es) == instance_field(instance_fields(two).unwrap(), es[2].0, es[2].1));
}

} // verus!
