//! The instance data that a document stands for.

use vstd::prelude::*;
use vstd::string::*;
use crate::instance::cbor::{Cbor, CborValue, cbor_document};
use crate::instance::data::{INSTANCE_DATA_VERSION, InstanceData, InstanceDataOpenError};
use crate::instance::data::{InstanceDataView, UnverifiedInstanceData, mods_view, profiles_error};
use crate::instance::format::encode::text;
use crate::instance::lists::{mod_list_from, mod_order_from};
use crate::instance::profiles::{Profiles, ProfilesView, with_entry};
use crate::instance::{ModDeclaration, ModDeclarationView, ModEntryKind, ModIndex};
use crate::instance::{ModOrderEntry, Profile, ProfileView};
use crate::text::str_equal;

verus! {

/// The index that a document stands for: a whole number from 0 to 2^32 - 1.
pub open spec fn decoded_index(c: Cbor) -> Option<ModIndex> {
    match c {
        Cbor::Integer(v) => if 0 <= v <= u32::MAX {
            Some(ModIndex(v as u32))
        } else {
            None
        },
        _ => None,
    }
}

/// The entry with the given fields.
pub open spec fn entry_of_fields(index: Cbor, enabled: Cbor) -> Option<ModOrderEntry> {
    match (decoded_index(index), enabled) {
        (Some(i), Cbor::Bool(b)) => Some(ModOrderEntry { index: i, enabled: b }),
        _ => None,
    }
}

/// The entry of a mod order that a document stands for: a bare index is an
/// enabled entry; a table must hold the index under `i` and the activation
/// state under `e`, in either order, and nothing else.
pub open spec fn decoded_entry(c: Cbor) -> Option<ModOrderEntry> {
    match c {
        Cbor::Integer(_) => match decoded_index(c) {
            Some(i) => Some(ModOrderEntry { index: i, enabled: true }),
            None => None,
        },
        Cbor::Table(es) => if es.len() == 2 && es[0].0 == text("i"@) && es[1].0 == text("e"@) {
            entry_of_fields(es[0].1, es[1].1)
        } else if es.len() == 2 && es[0].0 == text("e"@) && es[1].0 == text("i"@) {
            entry_of_fields(es[1].1, es[0].1)
        } else {
            None
        },
        _ => None,
    }
}

/// The kind of entry that a document names.
pub open spec fn decoded_kind(c: Cbor) -> Option<ModEntryKind> {
    match c {
        Cbor::Text(s) => if s == "Mod"@ {
            Some(ModEntryKind::Mod)
        } else if s == "Separator"@ {
            Some(ModEntryKind::Separator)
        } else {
            None
        },
        _ => None,
    }
}

/// The declaration with the given fields.
pub open spec fn declaration_of_fields(name: Cbor, kind: Cbor) -> Option<ModDeclarationView> {
    match (name, decoded_kind(kind)) {
        (Cbor::Text(s), Some(k)) => Some(ModDeclarationView { name: s, kind: k }),
        _ => None,
    }
}

/// The declaration that a document stands for: a bare text declares a mod of
/// that name; a table must hold the name under `name` and the kind under
/// `type`, in either order, and nothing else.
pub open spec fn decoded_declaration(c: Cbor) -> Option<ModDeclarationView> {
    match c {
        Cbor::Text(s) => Some(ModDeclarationView { name: s, kind: ModEntryKind::Mod }),
        Cbor::Table(es) => if es.len() == 2 && es[0].0 == text("name"@) && es[1].0 == text(
            "type"@,
        ) {
            declaration_of_fields(es[0].1, es[1].1)
        } else if es.len() == 2 && es[0].0 == text("type"@) && es[1].0 == text("name"@) {
            declaration_of_fields(es[1].1, es[0].1)
        } else {
            None
        },
        _ => None,
    }
}

/// The mod order that a document stands for: an array of entries.
pub open spec fn decoded_order(c: Cbor) -> Option<Seq<ModOrderEntry>> {
    match c {
        Cbor::Array(items) => if forall|i: int|
            0 <= i < items.len() ==> decoded_entry(#[trigger] items[i]).is_some() {
            Some(Seq::new(items.len(), |i: int| decoded_entry(items[i]).unwrap()))
        } else {
            None
        },
        _ => None,
    }
}

/// The mod list that a document stands for: an array of declarations.
pub open spec fn decoded_mods(c: Cbor) -> Option<Seq<ModDeclarationView>> {
    match c {
        Cbor::Array(items) => if forall|i: int|
            0 <= i < items.len() ==> decoded_declaration(#[trigger] items[i]).is_some() {
            Some(Seq::new(items.len(), |i: int| decoded_declaration(items[i]).unwrap()))
        } else {
            None
        },
        _ => None,
    }
}

/// The fields of a profile that were met so far.
pub struct ProfileFields {
    pub display_name: Option<Seq<char>>,
    pub mod_order: Option<Seq<ModOrderEntry>>,
}

/// The fields of a profile after one more field of its table: a field may
/// stand once and must hold what it is for; a field of another name is passed
/// over.
pub open spec fn profile_field(f: ProfileFields, key: Cbor, value: Cbor) -> Option<ProfileFields> {
    if key == text("display_name"@) {
        match (f.display_name, value) {
            (None, Cbor::Text(s)) => Some(
                ProfileFields { display_name: Some(s), mod_order: f.mod_order },
            ),
            _ => None,
        }
    } else if key == text("mod_order"@) {
        match (f.mod_order, decoded_order(value)) {
            (None, Some(o)) => Some(
                ProfileFields { display_name: f.display_name, mod_order: Some(o) },
            ),
            _ => None,
        }
    } else {
        Some(f)
    }
}

/// The fields of a profile's table, gone through in order.
pub open spec fn profile_fields(entries: Seq<(Cbor, Cbor)>) -> Option<ProfileFields>
    decreases entries.len(),
{
    if entries.len() == 0 {
        Some(ProfileFields { display_name: None, mod_order: None })
    } else {
        match profile_fields(entries.drop_last()) {
            Some(f) => profile_field(f, entries.last().0, entries.last().1),
            None => None,
        }
    }
}

/// The profile that a document stands for: a table with both fields.
pub open spec fn decoded_profile(c: Cbor) -> Option<ProfileView> {
    match c {
        Cbor::Table(es) => match profile_fields(es) {
            Some(ProfileFields { display_name: Some(n), mod_order: Some(o) }) => Some(
                ProfileView { display_name: n, mod_order: o },
            ),
            _ => None,
        },
        _ => None,
    }
}

/// The profiles of a table, gone through in order: every key is a text and
/// every value a profile; of two profiles under one name the later stays.
pub open spec fn profiles_of_entries(entries: Seq<(Cbor, Cbor)>) -> Option<ProfilesView>
    decreases entries.len(),
{
    if entries.len() == 0 {
        Some(Seq::empty())
    } else {
        match (
            profiles_of_entries(entries.drop_last()),
            entries.last().0,
            decoded_profile(entries.last().1),
        ) {
            (Some(ps), Cbor::Text(name), Some(profile)) => Some(with_entry(ps, name, profile)),
            _ => None,
        }
    }
}

/// The profiles that a document stands for.
pub open spec fn decoded_profiles(c: Cbor) -> Option<ProfilesView> {
    match c {
        Cbor::Table(es) => profiles_of_entries(es),
        _ => None,
    }
}

/// The fields of instance data that were met so far.
pub struct InstanceFields {
    pub version: bool,
    pub mods: Option<Seq<ModDeclarationView>>,
    pub profiles: Option<ProfilesView>,
}

/// The fields of instance data after one more field of the table. The
/// version must be the one version that is read: another version that is a
/// number from 1 to 2^32 - 1 is told apart from data that cannot be read at
/// all. A field may stand once; a field of another name is passed over.
pub open spec fn instance_field(f: InstanceFields, key: Cbor, value: Cbor) -> Result<
    InstanceFields,
    InstanceDataOpenError,
> {
    if key == text("version"@) {
        match value {
            Cbor::Integer(v) => if f.version {
                Err(InstanceDataOpenError::Deserialize)
            } else if v == INSTANCE_DATA_VERSION {
                Ok(InstanceFields { version: true, mods: f.mods, profiles: f.profiles })
            } else if 0 <= v <= u32::MAX {
                Err(InstanceDataOpenError::UnsupportedVersion(v as u32))
            } else {
                Err(InstanceDataOpenError::Deserialize)
            },
            _ => Err(InstanceDataOpenError::Deserialize),
        }
    } else if key == text("mods"@) {
        match (f.mods, decoded_mods(value)) {
            (None, Some(m)) => Ok(
                InstanceFields { version: f.version, mods: Some(m), profiles: f.profiles },
            ),
            _ => Err(InstanceDataOpenError::Deserialize),
        }
    } else if key == text("profiles"@) {
        match (f.profiles, decoded_profiles(value)) {
            (None, Some(p)) => Ok(
                InstanceFields { version: f.version, mods: f.mods, profiles: Some(p) },
            ),
            _ => Err(InstanceDataOpenError::Deserialize),
        }
    } else {
        Ok(f)
    }
}

/// The fields of the table of instance data, gone through in order. The
/// first field that is at fault decides the error.
pub open spec fn instance_fields(entries: Seq<(Cbor, Cbor)>) -> Result<
    InstanceFields,
    InstanceDataOpenError,
>
    decreases entries.len(),
{
    if entries.len() == 0 {
        Ok(InstanceFields { version: false, mods: None, profiles: None })
    } else {
        match instance_fields(entries.drop_last()) {
            Ok(f) => instance_field(f, entries.last().0, entries.last().1),
            Err(e) => Err(e),
        }
    }
}

/// The instance data that a document stands for: a table with all three
/// fields.
pub open spec fn decoded_instance(c: Cbor) -> Result<InstanceDataView, InstanceDataOpenError> {
    match c {
        Cbor::Table(es) => match instance_fields(es) {
            Ok(InstanceFields { version: true, mods: Some(m), profiles: Some(p) }) => Ok(
                InstanceDataView { mods: m, profiles: p },
            ),
            Ok(_) => Err(InstanceDataOpenError::Deserialize),
            Err(e) => Err(e),
        },
        _ => Err(InstanceDataOpenError::Deserialize),
    }
}

/// What loading a document gives: the instance data that it stands for,
/// where that is consistent.
pub open spec fn loaded(c: Cbor) -> Result<InstanceDataView, InstanceDataOpenError> {
    match decoded_instance(c) {
        Ok(data) => match profiles_error(data.profiles, data.mods.len()) {
            Some(e) => Err(InstanceDataOpenError::InvalidData(e)),
            None => Ok(data),
        },
        Err(e) => Err(e),
    }
}

/// What loading bytes gives.
pub open spec fn loaded_from(bytes: Seq<u8>) -> Result<InstanceDataView, InstanceDataOpenError> {
    match cbor_document(bytes) {
        Some(c) => loaded(c),
        None => Err(InstanceDataOpenError::Deserialize),
    }
}

/// Whether a document is the text `s`.
fn is_text(c: &CborValue, s: &str) -> (r: bool)
    ensures
        r == (c.model() == Cbor::Text(s@)),
{
    match c {
        CborValue::Text(t) => str_equal(t.as_str(), s),
        _ => false,
    }
}

/// The index that a document stands for.
fn decode_index(c: &CborValue) -> (r: Option<ModIndex>)
    ensures
        r == decoded_index(c.model()),
{
    match c {
        CborValue::Integer(v) => {
            if 0 <= *v && *v <= 0xffff_ffff {
                Some(ModIndex(*v as u32))
            } else {
                None
            }
        },
        _ => None,
    }
}

/// The entry with the given fields.
fn decode_entry_fields(index: &CborValue, enabled: &CborValue) -> (r: Option<ModOrderEntry>)
    ensures
        r == entry_of_fields(index.model(), enabled.model()),
{
    match (decode_index(index), enabled) {
        (Some(i), CborValue::Bool(b)) => Some(ModOrderEntry { index: i, enabled: *b }),
        _ => None,
    }
}

/// The kind of entry that a document names.
fn decode_kind(c: &CborValue) -> (r: Option<ModEntryKind>)
    ensures
        r == decoded_kind(c.model()),
{
    if is_text(c, "Mod") {
        Some(ModEntryKind::Mod)
    } else if is_text(c, "Separator") {
        Some(ModEntryKind::Separator)
    } else {
        None
    }
}

/// The declaration with the given fields.
fn decode_declaration_fields(name: &CborValue, kind: &CborValue) -> (r: Option<ModDeclaration>)
    ensures
        match r {
            Some(d) => declaration_of_fields(name.model(), kind.model()) == Some(d@),
            None => declaration_of_fields(name.model(), kind.model()).is_none(),
        },
{
    match (name, decode_kind(kind)) {
        (CborValue::Text(s), Some(k)) => Some(ModDeclaration { name: s.clone(), kind: k }),
        _ => None,
    }
}

impl ModOrderEntry {
    /// The entry that a document stands for. A bare index gives an enabled
    /// entry; an index is a whole number from 0 to 2^32 - 1.
    pub fn from_value(c: &CborValue) -> (r: Option<ModOrderEntry>)
        ensures
            r == decoded_entry(c.model()),
    {
        match c {
            CborValue::Integer(_) => match decode_index(c) {
                Some(i) => Some(ModOrderEntry { index: i, enabled: true }),
                None => None,
            },
            CborValue::Table(es) => {
                if es.len() != 2 {
                    None
                } else if is_text(&es[0].0, "i") && is_text(&es[1].0, "e") {
                    decode_entry_fields(&es[0].1, &es[1].1)
                } else if is_text(&es[0].0, "e") && is_text(&es[1].0, "i") {
                    decode_entry_fields(&es[1].1, &es[0].1)
                } else {
                    None
                }
            },
            _ => None,
        }
    }
}

impl ModDeclaration {
    /// The declaration that a document stands for. The name is taken as it
    /// stands.
    pub fn from_value(c: &CborValue) -> (r: Option<ModDeclaration>)
        ensures
            match r {
                Some(d) => decoded_declaration(c.model()) == Some(d@),
                None => decoded_declaration(c.model()).is_none(),
            },
    {
        match c {
            CborValue::Text(s) => Some(ModDeclaration { name: s.clone(), kind: ModEntryKind::Mod }),
            CborValue::Table(es) => {
                if es.len() != 2 {
                    None
                } else if is_text(&es[0].0, "name") && is_text(&es[1].0, "type") {
                    decode_declaration_fields(&es[0].1, &es[1].1)
                } else if is_text(&es[0].0, "type") && is_text(&es[1].0, "name") {
                    decode_declaration_fields(&es[1].1, &es[0].1)
                } else {
                    None
                }
            },
            _ => None,
        }
    }
}

/// The mod order that a document stands for.
fn decode_order(c: &CborValue) -> (r: Option<Vec<ModOrderEntry>>)
    ensures
        match r {
            Some(order) => decoded_order(c.model()) == Some(order@),
            None => decoded_order(c.model()).is_none(),
        },
{
    match c {
        CborValue::Array(items) => {
            let ghost docs = c.model()->Array_0;
            let mut order: Vec<ModOrderEntry> = Vec::new();
            let mut i: usize = 0;
            while i < items.len()
                invariant
                    i <= items@.len(),
                    order@.len() == i,
                    c.model() == Cbor::Array(docs),
                    docs.len() == items@.len(),
                    forall|k: int| 0 <= k < items@.len() ==> #[trigger] docs[k] == items@[k].model(),
                    forall|k: int| 0 <= k < i ==> decoded_entry(#[trigger] docs[k]) == Some(order@[k]),
                decreases items@.len() - i,
            {
                match ModOrderEntry::from_value(&items[i]) {
                    Some(entry) => order.push(entry),
                    None => {
                        assert(decoded_entry(docs[i as int]).is_none());
                        return None;
                    },
                }
                i = i + 1;
            }
            assert(decoded_order(c.model())->Some_0 =~= order@);
            Some(order)
        },
        _ => None,
    }
}

/// The mod list that a document stands for.
fn decode_mods(c: &CborValue) -> (r: Option<Vec<ModDeclaration>>)
    ensures
        match r {
            Some(mods) => decoded_mods(c.model()) == Some(mods_view(mods@)),
            None => decoded_mods(c.model()).is_none(),
        },
{
    match c {
        CborValue::Array(items) => {
            let ghost docs = c.model()->Array_0;
            let mut mods: Vec<ModDeclaration> = Vec::new();
            let mut i: usize = 0;
            while i < items.len()
                invariant
                    i <= items@.len(),
                    mods@.len() == i,
                    c.model() == Cbor::Array(docs),
                    docs.len() == items@.len(),
                    forall|k: int| 0 <= k < items@.len() ==> #[trigger] docs[k] == items@[k].model(),
                    forall|k: int|
                        0 <= k < i ==> decoded_declaration(#[trigger] docs[k]) == Some(mods@[k]@),
                decreases items@.len() - i,
            {
                match ModDeclaration::from_value(&items[i]) {
                    Some(declaration) => mods.push(declaration),
                    None => {
                        assert(decoded_declaration(docs[i as int]).is_none());
                        return None;
                    },
                }
                i = i + 1;
            }
            assert(decoded_mods(c.model())->Some_0 =~= mods_view(mods@));
            Some(mods)
        },
        _ => None,
    }
}

impl Profile {
    /// The profile that a document stands for.
    pub fn from_value(c: &CborValue) -> (r: Option<Profile>)
        ensures
            match r {
                Some(profile) => decoded_profile(c.model()) == Some(profile@),
                None => decoded_profile(c.model()).is_none(),
            },
    {
        match c {
            CborValue::Table(es) => {
                let ghost docs = c.model()->Table_0;
                let mut display_name: Option<String> = None;
                let mut mod_order: Option<Vec<ModOrderEntry>> = None;
                let mut i: usize = 0;
                while i < es.len()
                    invariant
                        i <= es@.len(),
                        c.model() == Cbor::Table(docs),
                        docs.len() == es@.len(),
                        forall|k: int|
                            0 <= k < es@.len() ==> #[trigger] docs[k] == (
                                es@[k].0.model(),
                                es@[k].1.model(),
                            ),
                        profile_fields(docs.take(i as int)) == Some(
                            ProfileFields {
                                display_name: match display_name {
                                    Some(s) => Some(s@),
                                    None => None,
                                },
                                mod_order: match mod_order {
                                    Some(o) => Some(o@),
                                    None => None,
                                },
                            },
                        ),
                    decreases es@.len() - i,
                {
                    proof {
                        assert(docs.take(i + 1).drop_last() =~= docs.take(i as int));
                        assert(docs.take(i + 1).last() == docs[i as int]);
                    }
                    if is_text(&es[i].0, "display_name") {
                        match (&display_name, &es[i].1) {
                            (None, CborValue::Text(s)) => {
                                display_name = Some(s.clone());
                            },
                            _ => {
                                proof {
                                    lemma_profile_fields_fail(docs, i + 1);
                                }
                                return None;
                            },
                        }
                    } else if is_text(&es[i].0, "mod_order") {
                        let decoded = decode_order(&es[i].1);
                        match (&mod_order, decoded) {
                            (None, Some(o)) => {
                                mod_order = Some(o);
                            },
                            _ => {
                                proof {
                                    lemma_profile_fields_fail(docs, i + 1);
                                }
                                return None;
                            },
                        }
                    }
                    i = i + 1;
                }
                proof {
                    assert(docs.take(i as int) =~= docs);
                }
                match (display_name, mod_order) {
                    (Some(n), Some(o)) => Some(
                        Profile { display_name: n, mod_order: mod_order_from(o) },
                    ),
                    _ => None,
                }
            },
            _ => None,
        }
    }
}

/// Where the first `n` fields of a profile's table are at fault, the table
/// is.
proof fn lemma_profile_fields_fail(entries: Seq<(Cbor, Cbor)>, n: int)
    requires
        0 <= n <= entries.len(),
        profile_fields(entries.take(n)).is_none(),
    ensures
        profile_fields(entries).is_none(),
    decreases entries.len() - n,
{
    if n < entries.len() {
        assert(entries.take(n + 1).drop_last() =~= entries.take(n));
        lemma_profile_fields_fail(entries, n + 1);
    } else {
        assert(entries.take(n) =~= entries);
    }
}

/// Where the first `n` entries of a table of profiles are at fault, the
/// table is.
proof fn lemma_profiles_fail(entries: Seq<(Cbor, Cbor)>, n: int)
    requires
        0 <= n <= entries.len(),
        profiles_of_entries(entries.take(n)).is_none(),
    ensures
        profiles_of_entries(entries).is_none(),
    decreases entries.len() - n,
{
    if n < entries.len() {
        assert(entries.take(n + 1).drop_last() =~= entries.take(n));
        lemma_profiles_fail(entries, n + 1);
    } else {
        assert(entries.take(n) =~= entries);
    }
}

/// The error of the first `n` fields of the table of instance data is the
/// error of the table.
proof fn lemma_instance_fields_fail(entries: Seq<(Cbor, Cbor)>, n: int)
    requires
        0 <= n <= entries.len(),
        instance_fields(entries.take(n)).is_err(),
    ensures
        instance_fields(entries) == instance_fields(entries.take(n)),
    decreases entries.len() - n,
{
    if n < entries.len() {
        assert(entries.take(n + 1).drop_last() =~= entries.take(n));
        lemma_instance_fields_fail(entries, n + 1);
    } else {
        assert(entries.take(n) =~= entries);
    }
}

impl Profiles {
    /// The profiles that a document stands for.
    pub fn from_value(c: &CborValue) -> (r: Option<Profiles>)
        ensures
            match r {
                Some(profiles) => decoded_profiles(c.model()) == Some(profiles@) && profiles.wf(),
                None => decoded_profiles(c.model()).is_none(),
            },
    {
        match c {
            CborValue::Table(es) => {
                let ghost docs = c.model()->Table_0;
                let mut profiles = Profiles::new();
                let mut i: usize = 0;
                while i < es.len()
                    invariant
                        i <= es@.len(),
                        c.model() == Cbor::Table(docs),
                        docs.len() == es@.len(),
                        forall|k: int|
                            0 <= k < es@.len() ==> #[trigger] docs[k] == (
                                es@[k].0.model(),
                                es@[k].1.model(),
                            ),
                        profiles.wf(),
                        profiles_of_entries(docs.take(i as int)) == Some(profiles@),
                    decreases es@.len() - i,
                {
                    proof {
                        assert(docs.take(i + 1).drop_last() =~= docs.take(i as int));
                        assert(docs.take(i + 1).last() == docs[i as int]);
                    }
                    let decoded = Profile::from_value(&es[i].1);
                    match (&es[i].0, decoded) {
                        (CborValue::Text(name), Some(profile)) => {
                            profiles.insert(name.clone(), profile);
                        },
                        _ => {
                            proof {
                                lemma_profiles_fail(docs, i + 1);
                            }
                            return None;
                        },
                    }
                    i = i + 1;
                }
                proof {
                    assert(docs.take(i as int) =~= docs);
                }
                Some(profiles)
            },
            _ => None,
        }
    }
}

/// What a mod list that may not be there yet says.
pub open spec fn optional_mods_view(mods: Option<Vec<ModDeclaration>>) -> Option<
    Seq<ModDeclarationView>,
> {
    match mods {
        Some(m) => Some(mods_view(m@)),
        None => None,
    }
}

/// What profiles that may not be there yet say.
pub open spec fn optional_profiles_view(profiles: Option<Profiles>) -> Option<ProfilesView> {
    match profiles {
        Some(p) => Some(p@),
        None => None,
    }
}

impl UnverifiedInstanceData {
    /// The instance data that a document stands for, before it is known to be
    /// consistent.
    pub fn from_value(c: &CborValue) -> (r: Result<UnverifiedInstanceData, InstanceDataOpenError>)
        ensures
            match r {
                Ok(data) => decoded_instance(c.model()) == Ok::<
                    InstanceDataView,
                    InstanceDataOpenError,
                >(data@) && data.profiles.wf(),
                Err(e) => decoded_instance(c.model()) == Err::<
                    InstanceDataView,
                    InstanceDataOpenError,
                >(e),
            },
    {
        match c {
            CborValue::Table(es) => {
                let ghost docs = c.model()->Table_0;
                let mut version = false;
                let mut mods: Option<Vec<ModDeclaration>> = None;
                let mut profiles: Option<Profiles> = None;
                let mut i: usize = 0;
                while i < es.len()
                    invariant
                        i <= es@.len(),
                        c.model() == Cbor::Table(docs),
                        docs.len() == es@.len(),
                        forall|k: int|
                            0 <= k < es@.len() ==> #[trigger] docs[k] == (
                                es@[k].0.model(),
                                es@[k].1.model(),
                            ),
                        profiles matches Some(p) ==> p.wf(),
                        instance_fields(docs.take(i as int)) == Ok::<
                            InstanceFields,
                            InstanceDataOpenError,
                        >(
                            InstanceFields {
                                version,
                                mods: optional_mods_view(mods),
                                profiles: optional_profiles_view(profiles),
                            },
                        ),
                    decreases es@.len() - i,
                {
                    proof {
                        assert(docs.take(i + 1).drop_last() =~= docs.take(i as int));
                        assert(docs.take(i + 1).last() == docs[i as int]);
                    }
                    if is_text(&es[i].0, "version") {
                        let found = Self::check_version(version, &es[i].1);
                        match found {
                            Ok(()) => {
                                version = true;
                            },
                            Err(e) => {
                                proof {
                                    lemma_instance_fields_fail(docs, i + 1);
                                }
                                return Err(e);
                            },
                        }
                    } else if is_text(&es[i].0, "mods") {
                        let decoded = decode_mods(&es[i].1);
                        match (&mods, decoded) {
                            (None, Some(m)) => {
                                mods = Some(m);
                            },
                            _ => {
                                proof {
                                    lemma_instance_fields_fail(docs, i + 1);
                                }
                                return Err(InstanceDataOpenError::Deserialize);
                            },
                        }
                    } else if is_text(&es[i].0, "profiles") {
                        let decoded = Profiles::from_value(&es[i].1);
                        match (&profiles, decoded) {
                            (None, Some(p)) => {
                                profiles = Some(p);
                            },
                            _ => {
                                proof {
                                    lemma_instance_fields_fail(docs, i + 1);
                                }
                                return Err(InstanceDataOpenError::Deserialize);
                            },
                        }
                    }
                    i = i + 1;
                }
                proof {
                    assert(docs.take(i as int) =~= docs);
                }
                match (version, mods, profiles) {
                    (true, Some(m), Some(p)) => Ok(
                        UnverifiedInstanceData { mods: mod_list_from(m), profiles: p },
                    ),
                    _ => Err(InstanceDataOpenError::Deserialize),
                }
            },
            _ => Err(InstanceDataOpenError::Deserialize),
        }
    }

    /// Holds the value of the version field against the version that is
    /// read; `seen` says that the field stood before.
    fn check_version(seen: bool, value: &CborValue) -> (r: Result<(), InstanceDataOpenError>)
        ensures
            r == (match value.model() {
                Cbor::Integer(v) => if seen {
                    Err::<(), InstanceDataOpenError>(InstanceDataOpenError::Deserialize)
                } else if v == INSTANCE_DATA_VERSION {
                    Ok::<(), InstanceDataOpenError>(())
                } else if 0 <= v <= u32::MAX {
                    Err::<(), InstanceDataOpenError>(
                        InstanceDataOpenError::UnsupportedVersion(v as u32),
                    )
                } else {
                    Err::<(), InstanceDataOpenError>(InstanceDataOpenError::Deserialize)
                },
                _ => Err::<(), InstanceDataOpenError>(InstanceDataOpenError::Deserialize),
            }),
    {
        match value {
            CborValue::Integer(v) => {
                if seen {
                    Err(InstanceDataOpenError::Deserialize)
                } else if *v == 0 {
                    Ok(())
                } else if 0 <= *v && *v <= 0xffff_ffff {
                    Err(InstanceDataOpenError::UnsupportedVersion(*v as u32))
                } else {
                    Err(InstanceDataOpenError::Deserialize)
                }
            },
            _ => Err(InstanceDataOpenError::Deserialize),
        }
    }
}

impl InstanceData {
    /// Loads instance data from a document: the document must have the shape
    /// of instance data of the version that is read, and the data must be
    /// consistent.
    pub fn from_value(c: &CborValue) -> (r: Result<InstanceData, InstanceDataOpenError>)
        ensures
            match r {
                Ok(data) => loaded(c.model()) == Ok::<InstanceDataView, InstanceDataOpenError>(
                    data@,
                ) && data.wf(),
                Err(e) => loaded(c.model()) == Err::<InstanceDataView, InstanceDataOpenError>(e),
            },
    {
        match UnverifiedInstanceData::from_value(c) {
            Ok(unverified) => match unverified.verify() {
                Ok(data) => Ok(data),
                Err(e) => Err(InstanceDataOpenError::InvalidData(e)),
            },
            Err(e) => Err(e),
        }
    }
}

} // verus!
