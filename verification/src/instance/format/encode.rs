//! Instance data as a document.

use vstd::prelude::*;
use vstd::string::*;
use crate::instance::cbor::{Cbor, CborValue};
use crate::instance::data::{INSTANCE_DATA_VERSION, InstanceData, InstanceDataView};
use crate::instance::lists::{declarations_of, entries_of};
use crate::instance::profiles::{Profiles, ProfilesView};
use crate::instance::{ModDeclaration, ModDeclarationView, ModEntryKind, ModOrderEntry};
use crate::instance::{Profile, ProfileView};

verus! {

/// The name under which a kind of entry is written.
pub open spec fn kind_name(kind: ModEntryKind) -> Seq<char> {
    match kind {
        ModEntryKind::Mod => "Mod"@,
        ModEntryKind::Separator => "Separator"@,
    }
}

/// A text as a document.
pub open spec fn text(s: Seq<char>) -> Cbor {
    Cbor::Text(s)
}

/// An entry of a mod order as a document.
pub open spec fn entry_document(entry: ModOrderEntry) -> Cbor {
    if entry.enabled {
        Cbor::Integer(entry.index.0 as int)
    } else {
        Cbor::Table(
            seq![
                (text("i"@), Cbor::Integer(entry.index.0 as int)),
                (text("e"@), Cbor::Bool(false)),
            ],
        )
    }
}

/// A declaration as a document.
pub open spec fn declaration_document(declaration: ModDeclarationView) -> Cbor {
    if declaration.kind == ModEntryKind::Mod {
        Cbor::Text(declaration.name)
    } else {
        Cbor::Table(
            seq![
                (text("name"@), Cbor::Text(declaration.name)),
                (text("type"@), Cbor::Text(kind_name(declaration.kind))),
            ],
        )
    }
}

/// A mod order as a document.
pub open spec fn order_document(order: Seq<ModOrderEntry>) -> Cbor {
    Cbor::Array(Seq::new(order.len(), |i: int| entry_document(order[i])))
}

/// A mod list as a document.
pub open spec fn mods_document(mods: Seq<ModDeclarationView>) -> Cbor {
    Cbor::Array(Seq::new(mods.len(), |i: int| declaration_document(mods[i])))
}

/// A profile as a document.
pub open spec fn profile_document(profile: ProfileView) -> Cbor {
    Cbor::Table(
        seq![
            (text("display_name"@), Cbor::Text(profile.display_name)),
            (text("mod_order"@), order_document(profile.mod_order)),
        ],
    )
}

/// Profiles as a document.
pub open spec fn profiles_document(profiles: ProfilesView) -> Cbor {
    Cbor::Table(
        Seq::new(profiles.len(), |i: int| (Cbor::Text(profiles[i].0), profile_document(profiles[i].1))),
    )
}

/// Instance data as a document. The version comes first.
pub open spec fn instance_document(data: InstanceDataView) -> Cbor {
    Cbor::Table(
        seq![
            (text("version"@), Cbor::Integer(0)),
            (text("mods"@), mods_document(data.mods)),
            (text("profiles"@), profiles_document(data.profiles)),
        ],
    )
}

/// The document for a text.
fn text_value(s: &str) -> (r: CborValue)
    ensures
        r.model() == Cbor::Text(s@),
{
    CborValue::Text(String::from_str(s))
}

/// The document for the index `value`.
fn index_value(value: u32) -> (r: CborValue)
    ensures
        r.model() == Cbor::Integer(value as int),
{
    CborValue::Integer(value as i128)
}

/// The table of two fields.
fn table_of_two(k1: &str, v1: CborValue, k2: &str, v2: CborValue) -> (r: CborValue)
    ensures
        r.model() == Cbor::Table(seq![(text(k1@), v1.model()), (text(k2@), v2.model())]),
{
    let mut entries: Vec<(CborValue, CborValue)> = Vec::new();
    entries.push((text_value(k1), v1));
    entries.push((text_value(k2), v2));
    let r = CborValue::Table(entries);
    assert(r.model()->Table_0 =~= seq![(text(k1@), v1.model()), (text(k2@), v2.model())]);
    r
}

impl ModOrderEntry {
    /// The entry as a document: the bare index where the entry is enabled,
    /// else the table of the index and the activation state.
    pub fn to_value(&self) -> (r: CborValue)
        ensures
            r.model() == entry_document(*self),
    {
        if self.enabled {
            index_value(self.index.0)
        } else {
            table_of_two("i", index_value(self.index.0), "e", CborValue::Bool(false))
        }
    }
}

impl ModDeclaration {
    /// The declaration as a document: the bare name for a mod, else the
    /// table of the name and the kind.
    pub fn to_value(&self) -> (r: CborValue)
        ensures
            r.model() == declaration_document(self@),
    {
        match self.kind {
            ModEntryKind::Mod => text_value(self.name.as_str()),
            ModEntryKind::Separator => table_of_two(
                "name",
                text_value(self.name.as_str()),
                "type",
                text_value("Separator"),
            ),
        }
    }
}

impl Profile {
    /// The profile as a document.
    pub fn to_value(&self) -> (r: CborValue)
        ensures
            r.model() == profile_document(self@),
    {
        let entries = entries_of(&self.mod_order);
        let mut items: Vec<CborValue> = Vec::new();
        let mut i: usize = 0;
        while i < entries.len()
            invariant
                i <= entries@.len(),
                items@.len() == i,
                forall|k: int|
                    0 <= k < i ==> (#[trigger] items@[k]).model() == entry_document(entries@[k]),
            decreases entries@.len() - i,
        {
            items.push(entries[i].to_value());
            i = i + 1;
        }
        let order = CborValue::Array(items);
        assert(order.model() == order_document(self@.mod_order)) by {
            assert(order.model()->Array_0 =~= order_document(self@.mod_order)->Array_0);
        }
        table_of_two("display_name", text_value(self.display_name.as_str()), "mod_order", order)
    }
}

impl Profiles {
    /// The profiles as a document: a table by ascending name.
    pub fn to_value(&self) -> (r: CborValue)
        ensures
            r.model() == profiles_document(self@),
    {
        let mut entries: Vec<(CborValue, CborValue)> = Vec::new();
        let mut i: usize = 0;
        while i < self.len()
            invariant
                i <= self@.len(),
                entries@.len() == i,
                forall|k: int|
                    0 <= k < i ==> (#[trigger] entries@[k]).0.model() == Cbor::Text(self@[k].0)
                        && entries@[k].1.model() == profile_document(self@[k].1),
            decreases self@.len() - i,
        {
            let key = text_value(self.name_at(i).as_str());
            let value = self.profile_at(i).to_value();
            entries.push((key, value));
            i = i + 1;
        }
        let r = CborValue::Table(entries);
        assert(r.model()->Table_0 =~= profiles_document(self@)->Table_0);
        r
    }
}

impl InstanceData {
    /// The instance data as a document.
    pub fn to_value(&self) -> (r: CborValue)
        ensures
            r.model() == instance_document(self@),
    {
        let declarations = declarations_of(&self.mods);
        let mut items: Vec<CborValue> = Vec::new();
        let mut i: usize = 0;
        while i < declarations.len()
            invariant
                i <= declarations@.len(),
                items@.len() == i,
                forall|k: int|
                    0 <= k < i ==> (#[trigger] items@[k]).model() == declaration_document(
                        declarations@[k]@,
                    ),
            decreases declarations@.len() - i,
        {
            items.push(declarations[i].to_value());
            i = i + 1;
        }
        let mods = CborValue::Array(items);
        assert(mods.model() == mods_document(self@.mods)) by {
            assert(mods.model()->Array_0 =~= mods_document(self@.mods)->Array_0);
        }
        let version = index_value(INSTANCE_DATA_VERSION);
        let profiles = self.profiles.to_value();
        let mut entries: Vec<(CborValue, CborValue)> = Vec::new();
        entries.push((text_value("version"), version));
        entries.push((text_value("mods"), mods));
        entries.push((text_value("profiles"), profiles));
        let r = CborValue::Table(entries);
        assert(r.model()->Table_0 =~= instance_document(self@)->Table_0) by {
            assert(entries@[0].1.model() == Cbor::Integer(0));
            assert(entries@[1].1.model() == mods_document(self@.mods));
            assert(entries@[2].1.model() == profiles_document(self@.profiles));
        }
        r
    }
}

} // verus!
