use mmm::instance::cbor::CborValue;
use mmm::instance::data::{InstanceData, InstanceDataOpenError, InstanceDataVerificationError};
use mmm::instance::data::UnverifiedInstanceData;
use mmm::instance::format::bytes::read_back;
use mmm::instance::profiles::Profiles;
use mmm::instance::{InvalidModNameError, ModDeclaration, ModEntryKind, ModIndex, ModOrderEntry};
use mmm::instance::{ModOrderIndex, Profile};

fn data_entry(index: u32, enabled: bool) -> ModOrderEntry {
    let mut entry = ModOrderEntry::new(ModIndex(index));
    entry.enabled = enabled;
    entry
}

fn data_profile(display_name: &str, order: &[(u32, bool)]) -> Profile {
    let mut profile = Profile::new(display_name.to_string());
    for (index, enabled) in order {
        profile.mod_order.push(data_entry(*index, *enabled));
    }
    profile
}

fn data_sample() -> InstanceData {
    let mods = vec![
        ModDeclaration::new("m0".to_string(), ModEntryKind::Mod).unwrap(),
        ModDeclaration::new("m1".to_string(), ModEntryKind::Mod).unwrap(),
        ModDeclaration::new("separator".to_string(), ModEntryKind::Separator).unwrap(),
        ModDeclaration::new("m2".to_string(), ModEntryKind::Mod).unwrap(),
    ];
    let mut profiles = Profiles::new();
    profiles.insert(
        "default".to_string(),
        data_profile("Default", &[(2, true), (0, false), (1, true)]),
    );
    InstanceData { mods: mods.into(), profiles }
}

fn data_text(s: &str) -> CborValue {
    CborValue::Text(s.to_string())
}

fn data_table(entries: Vec<(&str, CborValue)>) -> CborValue {
    CborValue::Table(entries.into_iter().map(|(k, v)| (data_text(k), v)).collect())
}

fn data_document(version: CborValue, mods: CborValue, profiles: CborValue) -> CborValue {
    data_table(vec![("version", version), ("mods", mods), ("profiles", profiles)])
}

#[test]
fn persistence_round_trip() {
    let data = data_sample();
    let bytes = data.serialize().unwrap();
    let loaded = InstanceData::from_bytes(&bytes).unwrap();
    assert_eq!(loaded, data);
}

#[test]
fn tampered_version_is_unsupported() {
    let bytes = data_sample().serialize().unwrap();
    let mut tampered = bytes.clone();
    let at = tampered
        .windows(8)
        .position(|w| w == b"gversion")
        .expect("the version field is written");
    assert_eq!(tampered[at + 8], 0x00);
    tampered[at + 8] = 0x01;
    assert_eq!(
        InstanceData::from_bytes(&tampered),
        Err(InstanceDataOpenError::UnsupportedVersion(1))
    );
}

#[test]
fn instance_data_is_written_as_expected_bytes() {
    let mut profiles = Profiles::new();
    profiles.insert("p".to_string(), data_profile("P", &[(1, true), (0, false)]));
    let data = InstanceData {
        mods: vec![
            ModDeclaration::new("a".to_string(), ModEntryKind::Mod).unwrap(),
            ModDeclaration::new("s".to_string(), ModEntryKind::Separator).unwrap(),
        ]
        .into(),
        profiles,
    };
    let mut expected: Vec<u8> = Vec::new();
    expected.push(0xa3);
    expected.extend_from_slice(b"\x67version\x00");
    expected.extend_from_slice(b"\x64mods\x82");
    expected.extend_from_slice(b"\x61a");
    expected.extend_from_slice(b"\xa2\x64name\x61s\x64type\x69Separator");
    expected.extend_from_slice(b"\x68profiles\xa1");
    expected.extend_from_slice(b"\x61p\xa2");
    expected.extend_from_slice(b"\x6cdisplay_name\x61P");
    expected.extend_from_slice(b"\x69mod_order\x82");
    expected.push(0x01);
    expected.extend_from_slice(b"\xa2\x61i\x00\x61e\xf4");
    assert_eq!(data.serialize().unwrap(), expected);
    assert_eq!(InstanceData::from_bytes(&expected).unwrap(), data);
}

#[test]
fn profiles_are_written_by_ascending_name() {
    let mut profiles = Profiles::new();
    profiles.insert("zeta".to_string(), data_profile("Z", &[]));
    profiles.insert("alpha".to_string(), data_profile("A", &[]));
    profiles.insert("mid".to_string(), data_profile("M", &[]));
    let data = InstanceData { mods: vec![].into(), profiles };
    let document = data.to_value();
    let profiles = match &document {
        CborValue::Table(fields) => match &fields[2].1 {
            CborValue::Table(profiles) => profiles,
            _ => panic!("profiles are a table"),
        },
        _ => panic!("instance data is a table"),
    };
    let names: Vec<&CborValue> = profiles.iter().map(|(k, _)| k).collect();
    assert_eq!(names, vec![&data_text("alpha"), &data_text("mid"), &data_text("zeta")]);
    let bytes = data.serialize().unwrap();
    assert_eq!(InstanceData::from_bytes(&bytes).unwrap(), data);
}

#[test]
fn entry_is_written_short_when_enabled() {
    assert_eq!(data_entry(7, true).to_value(), CborValue::Integer(7));
    assert_eq!(
        data_entry(7, false).to_value(),
        data_table(vec![("i", CborValue::Integer(7)), ("e", CborValue::Bool(false))])
    );
}

#[test]
fn declaration_is_written_short_for_a_mod() {
    let plain = ModDeclaration::new("texture pack".to_string(), ModEntryKind::Mod).unwrap();
    assert_eq!(plain.to_value(), data_text("texture pack"));
    let separator = ModDeclaration::new("--- UI ---".to_string(), ModEntryKind::Separator).unwrap();
    assert_eq!(
        separator.to_value(),
        data_table(vec![("name", data_text("--- UI ---")), ("type", data_text("Separator"))])
    );
}

#[test]
fn entry_is_read_from_either_form() {
    assert_eq!(
        ModOrderEntry::from_value(&CborValue::Integer(5)),
        Some(data_entry(5, true))
    );
    assert_eq!(
        ModOrderEntry::from_value(&data_table(vec![
            ("i", CborValue::Integer(5)),
            ("e", CborValue::Bool(false)),
        ])),
        Some(data_entry(5, false))
    );
    assert_eq!(
        ModOrderEntry::from_value(&data_table(vec![
            ("e", CborValue::Bool(true)),
            ("i", CborValue::Integer(5)),
        ])),
        Some(data_entry(5, true))
    );
    assert_eq!(
        ModOrderEntry::from_value(&CborValue::Integer(0xffff_ffff)),
        Some(data_entry(u32::MAX, true))
    );
}

#[test]
fn entry_outside_the_index_range_is_refused() {
    assert_eq!(ModOrderEntry::from_value(&CborValue::Integer(-1)), None);
    assert_eq!(ModOrderEntry::from_value(&CborValue::Integer(0x1_0000_0000)), None);
    assert_eq!(ModOrderEntry::from_value(&data_text("5")), None);
    assert_eq!(ModOrderEntry::from_value(&CborValue::Other), None);
    assert_eq!(
        ModOrderEntry::from_value(&data_table(vec![("i", CborValue::Integer(5))])),
        None
    );
    assert_eq!(
        ModOrderEntry::from_value(&data_table(vec![
            ("i", CborValue::Integer(5)),
            ("i", CborValue::Integer(5)),
        ])),
        None
    );
    assert_eq!(
        ModOrderEntry::from_value(&data_table(vec![
            ("i", CborValue::Integer(5)),
            ("e", CborValue::Bool(false)),
            ("x", CborValue::Bool(false)),
        ])),
        None
    );
    assert_eq!(
        ModOrderEntry::from_value(&data_table(vec![
            ("i", CborValue::Integer(-5)),
            ("e", CborValue::Bool(false)),
        ])),
        None
    );
}

fn data_bytes_with_order(count: u8, order: &[u8]) -> Vec<u8> {
    let mut bytes: Vec<u8> = Vec::new();
    bytes.push(0xa3);
    bytes.extend_from_slice(b"\x67version\x00");
    bytes.extend_from_slice(b"\x64mods\x86\x61a\x61b\x61c\x61d\x61e\x61f");
    bytes.extend_from_slice(b"\x68profiles\xa1\x61p\xa2");
    bytes.extend_from_slice(b"\x6cdisplay_name\x61P");
    bytes.extend_from_slice(b"\x69mod_order");
    bytes.push(0x80 | count);
    bytes.extend_from_slice(order);
    bytes
}

#[test]
fn entry_is_read_from_any_integer_width() {
    let order = [
        vec![0x05u8],
        vec![0x18, 0x04],
        vec![0x19, 0x00, 0x03],
        vec![0x1a, 0x00, 0x00, 0x00, 0x02],
        vec![0x1b, 0x00, 0x00, 0x00, 0x00, 0x00, 0x00, 0x00, 0x01],
    ]
    .concat();
    let data = InstanceData::from_bytes(&data_bytes_with_order(5, &order)).unwrap();
    assert_eq!(
        data.profiles.get("p").unwrap().mod_order.raw,
        vec![
            data_entry(5, true),
            data_entry(4, true),
            data_entry(3, true),
            data_entry(2, true),
            data_entry(1, true),
        ]
    );
    assert_eq!(
        InstanceData::from_bytes(&data_bytes_with_order(1, &[0x20])),
        Err(InstanceDataOpenError::Deserialize)
    );
    assert_eq!(
        InstanceData::from_bytes(&data_bytes_with_order(1, &[0x1b, 0, 0, 0, 1, 0, 0, 0, 0])),
        Err(InstanceDataOpenError::Deserialize)
    );
    assert_eq!(
        InstanceData::from_bytes(&data_bytes_with_order(1, &[0x1a, 0xff, 0xff, 0xff, 0xff])),
        Err(InstanceDataOpenError::InvalidData(InstanceDataVerificationError::ModIndexOutOfRange))
    );
}

#[test]
fn entry_table_is_read_from_bytes() {
    let order = b"\xa2\x61i\x02\x61e\xf4\xa2\x61e\xf5\x61i\x18\x03";
    let data = InstanceData::from_bytes(&data_bytes_with_order(2, order)).unwrap();
    assert_eq!(
        data.profiles.get("p").unwrap().mod_order.raw,
        vec![data_entry(2, false), data_entry(3, true)]
    );
}

#[test]
fn large_index_is_written_in_the_shortest_width() {
    let mut profiles = Profiles::new();
    profiles.insert("p".to_string(), data_profile("P", &[(300, true), (70000, true), (23, true), (24, true)]));
    let data = UnverifiedInstanceData { mods: vec![].into(), profiles };
    let written = InstanceData { mods: data.mods, profiles: data.profiles }.serialize().unwrap();
    let tail = &written[written.len() - 12..];
    assert_eq!(tail, b"\x84\x19\x01\x2c\x1a\x00\x01\x11\x70\x17\x18\x18");
}

#[test]
fn bytes_behind_the_data_are_not_looked_at() {
    let mut bytes = data_sample().serialize().unwrap();
    bytes.extend_from_slice(b"\xff\xff trailing");
    assert_eq!(InstanceData::from_bytes(&bytes).unwrap(), data_sample());
    let cut = &bytes[..20];
    assert_eq!(InstanceData::from_bytes(cut), Err(InstanceDataOpenError::Deserialize));
}

#[test]
fn declaration_is_read_from_either_form() {
    let plain = ModDeclaration::from_value(&data_text("a")).unwrap();
    assert_eq!(plain.name(), "a");
    assert_eq!(plain.kind(), ModEntryKind::Mod);
    let separator = ModDeclaration::from_value(&data_table(vec![
        ("type", data_text("Separator")),
        ("name", data_text("b")),
    ]))
    .unwrap();
    assert_eq!(separator.name(), "b");
    assert_eq!(separator.kind(), ModEntryKind::Separator);
    let long = ModDeclaration::from_value(&data_table(vec![
        ("name", data_text("c")),
        ("type", data_text("Mod")),
    ]))
    .unwrap();
    assert_eq!(long.kind(), ModEntryKind::Mod);
    assert_eq!(
        ModDeclaration::from_value(&data_table(vec![
            ("name", data_text("c")),
            ("type", data_text("Patch")),
        ])),
        None
    );
    assert_eq!(ModDeclaration::from_value(&CborValue::Integer(1)), None);
}

#[test]
fn bytes_that_are_no_instance_data_are_refused() {
    assert_eq!(InstanceData::from_bytes(&[]), Err(InstanceDataOpenError::Deserialize));
    assert_eq!(InstanceData::from_bytes(&[0x01]), Err(InstanceDataOpenError::Deserialize));
    assert_eq!(InstanceData::from_bytes(b"not cbor at all"), Err(InstanceDataOpenError::Deserialize));
}

#[test]
fn version_is_checked_where_it_stands() {
    let empty = || CborValue::Array(vec![]);
    let none = || CborValue::Table(vec![]);
    let ok = data_document(CborValue::Integer(0), empty(), none());
    assert!(InstanceData::from_value(&ok).is_ok());
    let other = data_document(CborValue::Integer(7), empty(), none());
    assert_eq!(
        InstanceData::from_value(&other),
        Err(InstanceDataOpenError::UnsupportedVersion(7))
    );
    let negative = data_document(CborValue::Integer(-1), empty(), none());
    assert_eq!(InstanceData::from_value(&negative), Err(InstanceDataOpenError::Deserialize));
    let huge = data_document(CborValue::Integer(1 << 40), empty(), none());
    assert_eq!(InstanceData::from_value(&huge), Err(InstanceDataOpenError::Deserialize));
    let text = data_document(data_text("0"), empty(), none());
    assert_eq!(InstanceData::from_value(&text), Err(InstanceDataOpenError::Deserialize));
    let bad_mods_first = data_table(vec![
        ("mods", CborValue::Bool(true)),
        ("version", CborValue::Integer(7)),
        ("profiles", none()),
    ]);
    assert_eq!(
        InstanceData::from_value(&bad_mods_first),
        Err(InstanceDataOpenError::Deserialize)
    );
}

#[test]
fn fields_of_instance_data_may_stand_in_any_order_but_once() {
    let reordered = data_table(vec![
        ("profiles", CborValue::Table(vec![])),
        ("unknown", CborValue::Integer(3)),
        ("mods", CborValue::Array(vec![data_text("a")])),
        ("version", CborValue::Integer(0)),
    ]);
    let data = InstanceData::from_value(&reordered).unwrap();
    assert_eq!(data.mods.len(), 1);
    assert_eq!(data.profiles.len(), 0);
    let twice = data_table(vec![
        ("version", CborValue::Integer(0)),
        ("mods", CborValue::Array(vec![])),
        ("mods", CborValue::Array(vec![])),
        ("profiles", CborValue::Table(vec![])),
    ]);
    assert_eq!(InstanceData::from_value(&twice), Err(InstanceDataOpenError::Deserialize));
    let missing = data_table(vec![
        ("version", CborValue::Integer(0)),
        ("mods", CborValue::Array(vec![])),
    ]);
    assert_eq!(InstanceData::from_value(&missing), Err(InstanceDataOpenError::Deserialize));
    assert_eq!(
        InstanceData::from_value(&CborValue::Array(vec![])),
        Err(InstanceDataOpenError::Deserialize)
    );
}

#[test]
fn later_profile_of_a_name_replaces_the_earlier() {
    let profile = |display: &str| {
        data_table(vec![
            ("display_name", data_text(display)),
            ("mod_order", CborValue::Array(vec![])),
        ])
    };
    let document = data_document(
        CborValue::Integer(0),
        CborValue::Array(vec![]),
        data_table(vec![("b", profile("first")), ("a", profile("A")), ("b", profile("second"))]),
    );
    let data = InstanceData::from_value(&document).unwrap();
    assert_eq!(data.profiles.len(), 2);
    assert_eq!(data.profiles.name_at(0), "a");
    assert_eq!(data.profiles.get("b").unwrap().display_name(), "second");
}

#[test]
fn loaded_data_is_verified() {
    let profile = |order: Vec<CborValue>| {
        data_table(vec![
            ("display_name", data_text("P")),
            ("mod_order", CborValue::Array(order)),
        ])
    };
    let mods = || CborValue::Array(vec![data_text("a"), data_text("b")]);
    let duplicate = data_document(
        CborValue::Integer(0),
        mods(),
        data_table(vec![("p", profile(vec![CborValue::Integer(1), CborValue::Integer(1)]))]),
    );
    assert_eq!(
        InstanceData::from_value(&duplicate),
        Err(InstanceDataOpenError::InvalidData(InstanceDataVerificationError::DuplicateModIndex))
    );
    let out_of_range = data_document(
        CborValue::Integer(0),
        mods(),
        data_table(vec![("p", profile(vec![CborValue::Integer(0), CborValue::Integer(2)]))]),
    );
    assert_eq!(
        InstanceData::from_value(&out_of_range),
        Err(InstanceDataOpenError::InvalidData(InstanceDataVerificationError::ModIndexOutOfRange))
    );
    let unverified = UnverifiedInstanceData::from_value(&out_of_range).unwrap();
    assert_eq!(unverified.mods.len(), 2);
    assert_eq!(
        unverified.verify(),
        Err(InstanceDataVerificationError::ModIndexOutOfRange)
    );
}

#[test]
fn first_fault_of_a_mod_order_is_reported() {
    let check = |order: &[(u32, bool)], mods_len: usize| {
        UnverifiedInstanceData::verify_profile(&data_profile("P", order), mods_len)
    };
    assert_eq!(check(&[], 0), Ok(()));
    assert_eq!(check(&[(2, true), (0, false), (1, true)], 3), Ok(()));
    assert_eq!(
        check(&[(0, true), (0, true), (9, true)], 3),
        Err(InstanceDataVerificationError::DuplicateModIndex)
    );
    assert_eq!(
        check(&[(0, true), (9, true), (0, true)], 3),
        Err(InstanceDataVerificationError::ModIndexOutOfRange)
    );
    assert_eq!(
        check(&[(3, true)], 3),
        Err(InstanceDataVerificationError::ModIndexOutOfRange)
    );
}

#[test]
fn profiles_are_verified_by_ascending_name() {
    let mut profiles = Profiles::new();
    profiles.insert("b".to_string(), data_profile("B", &[(5, true)]));
    profiles.insert("a".to_string(), data_profile("A", &[(0, true), (0, true)]));
    let data = UnverifiedInstanceData {
        mods: vec![ModDeclaration::new("m".to_string(), ModEntryKind::Mod).unwrap()].into(),
        profiles,
    };
    assert_eq!(data.verify(), Err(InstanceDataVerificationError::DuplicateModIndex));
}

#[test]
fn mod_names_are_checked() {
    assert!(ModDeclaration::is_name_valid("Unofficial Patch 1.2"));
    assert!(ModDeclaration::is_name_valid(""));
    assert!(ModDeclaration::is_name_valid("名前"));
    assert!(!ModDeclaration::is_name_valid("a/b"));
    assert!(!ModDeclaration::is_name_valid("a\\b"));
    assert!(!ModDeclaration::is_name_valid("tab\there"));
    assert!(!ModDeclaration::is_name_valid("del\u{7f}"));
    assert!(!ModDeclaration::is_name_valid("c1\u{85}"));
    assert!(ModDeclaration::is_name_valid(&"x".repeat(255)));
    assert!(!ModDeclaration::is_name_valid(&"x".repeat(256)));
    assert!(!ModDeclaration::is_name_valid(&"é".repeat(128)));
    assert_eq!(
        ModDeclaration::check_name(&"/".repeat(300)),
        Some(InvalidModNameError::TooLong)
    );
    assert_eq!(
        ModDeclaration::new("a/b".to_string(), ModEntryKind::Mod),
        Err(InvalidModNameError::ForbiddenCharacter)
    );
    assert_eq!(ModDeclaration::check_name("fine"), None);
}

#[test]
fn indices_convert_to_and_from_positions() {
    assert_eq!(ModIndex::from_usize(12), Some(ModIndex(12)));
    assert_eq!(ModIndex(12).as_usize(), 12);
    assert_eq!(ModIndex::from_usize(u32::MAX as usize), Some(ModIndex(u32::MAX)));
    assert_eq!(ModIndex::from_usize(u32::MAX as usize + 1), None);
    assert_eq!(ModOrderIndex::from_usize(3), Some(ModOrderIndex(3)));
    assert_eq!(ModOrderIndex(3).as_usize(), 3);
    assert_eq!(ModOrderIndex::from_usize(usize::MAX), None);
    assert_eq!(ModIndex::from(7usize), ModIndex(7));
    assert_eq!(ModIndex::from(usize::MAX), ModIndex(u32::MAX));
    assert_eq!(usize::from(ModIndex(7)), 7);
    assert_eq!(ModOrderIndex::from(9usize), ModOrderIndex(9));
    assert_eq!(usize::from(ModOrderIndex(9)), 9);
    assert_eq!(ModEntryKind::default(), ModEntryKind::Mod);
    assert_eq!(ModOrderEntry::new(ModIndex(4)).mod_index(), ModIndex(4));
    assert!(!ModOrderEntry::new(ModIndex(4)).enabled);
}

#[test]
fn profile_map_keeps_names_in_order() {
    let mut profiles = Profiles::new();
    assert_eq!(profiles.len(), 0);
    assert!(!profiles.contains_key("a"));
    profiles.insert("b".to_string(), data_profile("B", &[]));
    profiles.insert("a".to_string(), data_profile("A", &[]));
    profiles.insert("ab".to_string(), data_profile("AB", &[]));
    profiles.insert("B".to_string(), data_profile("upper", &[]));
    let names: Vec<String> = (0..profiles.len()).map(|i| profiles.name_at(i).clone()).collect();
    assert_eq!(names, vec!["B", "a", "ab", "b"]);
    assert_eq!(profiles.position("ab"), Some(2));
    assert_eq!(profiles.position("abc"), None);
    assert_eq!(profiles.profile_at(2).display_name(), "AB");
    profiles.insert("a".to_string(), data_profile("again", &[]));
    assert_eq!(profiles.len(), 4);
    assert_eq!(profiles.get("a").unwrap().display_name(), "again");
    assert_eq!(profiles.remove("zz"), None);
    assert_eq!(profiles.remove("ab").unwrap().display_name(), "AB");
    let old = profiles.replace_order(1, vec![data_entry(3, true)]);
    assert!(old.is_empty());
    assert_eq!(profiles.get("a").unwrap().mod_order.raw, vec![data_entry(3, true)]);
    let (name, profile) = profiles.pop_first().unwrap();
    assert_eq!(name, "B");
    assert_eq!(profile.display_name(), "upper");
    assert_eq!(profiles.len(), 2);
}

#[test]
fn bytes_that_decode_to_the_document_are_handed_out() {
    let data = data_sample();
    let bytes = data.serialize().unwrap();
    assert_eq!(read_back(&data.to_value(), bytes.clone()), Some(bytes));
    // the integer 5 is the single byte 0x05
    assert_eq!(read_back(&CborValue::Integer(5), vec![0x05]), Some(vec![0x05]));
}

#[test]
fn bytes_of_another_document_are_not_handed_out() {
    let bytes = data_sample().serialize().unwrap();
    let other = InstanceData { mods: Vec::new().into(), profiles: Profiles::new() };
    assert_eq!(read_back(&other.to_value(), bytes), None);
    assert_eq!(read_back(&CborValue::Integer(5), vec![0x06]), None);
    assert_eq!(read_back(&CborValue::Bool(true), vec![0xf4]), None);
}

#[test]
fn bytes_that_do_not_decode_are_not_handed_out() {
    // a text of three bytes that is cut short after the first
    assert_eq!(read_back(&data_text("abc"), vec![0x63, 0x61]), None);
    assert_eq!(read_back(&data_text("abc"), Vec::new()), None);
}

#[test]
fn data_without_mods_and_profiles_is_written() {
    let data = InstanceData { mods: Vec::new().into(), profiles: Profiles::new() };
    let bytes = data.serialize().expect("the bytes read back");
    assert_eq!(InstanceData::from_bytes(&bytes).unwrap(), data);
}

#[test]
fn no_profiles_at_first() {
    let profiles = Profiles::new();
    assert_eq!(profiles.len(), 0);
    assert!(!profiles.contains_key("default"));
    assert!(profiles.get("default").is_none());
}
