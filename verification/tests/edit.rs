use mmm::edit::{add_missing_mods, CreateModError, EditableInstance, RenameModError};
use mmm::instance::data::InstanceData;
use mmm::instance::profiles::Profiles;
use mmm::instance::{Instance, InvalidModNameError, ModDeclaration, ModEntryKind, ModIndex};
use mmm::instance::{ModOrderEntry, ModOrderIndex, Profile};
use mmm::text::{decimal_string, join_path, str_equal, str_less, truncate_str};
use mmm::writer::WriteTarget;

fn edit_entry(index: u32, enabled: bool) -> ModOrderEntry {
    let mut entry = ModOrderEntry::new(ModIndex(index));
    entry.enabled = enabled;
    entry
}

fn edit_data(mods: &[(&str, ModEntryKind)], profiles: &[(&str, &[(u32, bool)])]) -> InstanceData {
    let mods: Vec<ModDeclaration> = mods
        .iter()
        .map(|(name, kind)| ModDeclaration::new(name.to_string(), *kind).unwrap())
        .collect();
    let mut map = Profiles::new();
    for (name, order) in profiles {
        let mut profile = Profile::new(name.to_string());
        for (index, enabled) in order.iter() {
            profile.mod_order.push(edit_entry(*index, *enabled));
        }
        map.insert(name.to_string(), profile);
    }
    InstanceData { mods: mods.into(), profiles: map }
}

fn edit_three_mods() -> EditableInstance {
    let data = edit_data(
        &[("a", ModEntryKind::Mod), ("sep", ModEntryKind::Separator), ("c", ModEntryKind::Mod)],
        &[("default", &[(2, true), (0, false), (1, true)]), ("other", &[(1, true), (2, false)])],
    );
    EditableInstance::open("/inst".to_string(), data)
}

fn edit_indices(order: &[ModOrderEntry]) -> Vec<(u32, bool)> {
    order.iter().map(|e| (e.mod_index().0, e.enabled)).collect()
}

fn edit_saved(instance: &mut EditableInstance) -> InstanceData {
    let request = instance.save().expect("the instance has changed");
    assert_eq!(request.target, WriteTarget::InstanceData);
    InstanceData::from_bytes(&request.content).unwrap()
}

#[test]
fn opening_completes_the_mod_order_of_the_default_profile() {
    let data = edit_data(
        &[("a", ModEntryKind::Mod), ("b", ModEntryKind::Mod), ("c", ModEntryKind::Mod)],
        &[("default", &[(1, true)]), ("other", &[])],
    );
    let mut instance = EditableInstance::open("/inst".to_string(), data);
    assert_eq!(instance.dir(), "/inst");
    assert_eq!(instance.mods().len(), 3);
    assert_eq!(edit_indices(instance.mod_order()), vec![(1, true), (0, false), (2, false)]);
    assert!(instance.save().is_none());
}

#[test]
fn opening_falls_back_to_the_first_profile() {
    let data = edit_data(&[("a", ModEntryKind::Mod)], &[("zeta", &[]), ("beta", &[(0, true)])]);
    let instance = EditableInstance::open("/inst".to_string(), data);
    assert_eq!(edit_indices(instance.mod_order()), vec![(0, true)]);
}

#[test]
fn opening_an_instance_without_profiles_makes_the_default_profile() {
    let data = edit_data(&[("a", ModEntryKind::Mod)], &[]);
    let mut instance = EditableInstance::open("/inst".to_string(), data);
    assert_eq!(edit_indices(instance.mod_order()), vec![(0, false)]);
    instance.toggle_mod_enabled(ModOrderIndex(0));
    let saved = edit_saved(&mut instance);
    assert_eq!(saved.profiles.len(), 1);
    assert_eq!(saved.profiles.name_at(0), "default");
    assert_eq!(saved.profiles.profile_at(0).display_name(), "Default");
}

#[test]
fn missing_mods_are_added_disabled_by_ascending_index() {
    let mut order = vec![edit_entry(3, true), edit_entry(1, false)];
    add_missing_mods(&mut order, 5);
    assert_eq!(
        edit_indices(&order),
        vec![(3, true), (1, false), (0, false), (2, false), (4, false)]
    );
    let mut full = vec![edit_entry(0, true), edit_entry(1, true), edit_entry(2, true)];
    add_missing_mods(&mut full, 2);
    assert_eq!(edit_indices(&full), vec![(0, true), (1, true), (2, true)]);
    let mut empty: Vec<ModOrderEntry> = Vec::new();
    add_missing_mods(&mut empty, 0);
    assert!(empty.is_empty());
}

#[test]
fn switching_profiles_completes_the_new_profile() {
    let mut instance = edit_three_mods();
    instance.switch_to_profile("other".to_string());
    assert_eq!(edit_indices(instance.mod_order()), vec![(1, true), (2, false), (0, false)]);
    instance.switch_to_profile("missing".to_string());
    assert_eq!(edit_indices(instance.mod_order()), vec![(1, true), (2, false), (0, false)]);
    instance.switch_to_profile("default".to_string());
    assert_eq!(edit_indices(instance.mod_order()), vec![(2, true), (0, false), (1, true)]);
}

#[test]
fn toggling_flips_one_entry_and_marks_the_instance_changed() {
    let mut instance = edit_three_mods();
    assert!(instance.save().is_none());
    instance.toggle_mod_enabled(ModOrderIndex(1));
    assert_eq!(edit_indices(instance.mod_order()), vec![(2, true), (0, true), (1, true)]);
    let saved = edit_saved(&mut instance);
    assert_eq!(
        edit_indices(&saved.profiles.get("default").unwrap().mod_order.raw),
        vec![(2, true), (0, true), (1, true)]
    );
    assert!(instance.save().is_none());
}

#[test]
fn moving_mods_reorders_the_current_profile() {
    let mods: Vec<(String, ModEntryKind)> =
        (0..10).map(|i| (format!("m{}", i), ModEntryKind::Mod)).collect();
    let mods: Vec<(&str, ModEntryKind)> = mods.iter().map(|(n, k)| (n.as_str(), *k)).collect();
    let order: Vec<(u32, bool)> = (0..10).map(|i| (i, i % 2 == 0)).collect();
    let data = edit_data(&mods, &[("default", &order)]);
    let mut instance = EditableInstance::open("/inst".to_string(), data);
    let mut selection = foldhash::HashSet::default();
    selection.insert(ModOrderIndex(8));
    selection.insert(ModOrderIndex(1));
    selection.insert(ModOrderIndex(3));
    let first = instance.move_mods(&selection, ModOrderIndex(5));
    assert_eq!(first, ModOrderIndex(5));
    let indices: Vec<u32> = instance.mod_order().iter().map(|e| e.mod_index().0).collect();
    assert_eq!(indices, vec![0, 2, 4, 5, 6, 1, 3, 8, 7, 9]);
    assert!(instance.mod_order().iter().all(|e| e.enabled == (e.mod_index().0 % 2 == 0)));
    let first = instance.move_mods_at(&vec![ModOrderIndex(0)], ModOrderIndex(10));
    assert_eq!(first, ModOrderIndex(9));
    assert!(instance.save().is_some());
}

#[test]
fn moving_mods_takes_the_places_in_any_order_and_number() {
    let mods: Vec<(String, ModEntryKind)> =
        (0..10).map(|i| (format!("m{}", i), ModEntryKind::Mod)).collect();
    let mods: Vec<(&str, ModEntryKind)> = mods.iter().map(|(n, k)| (n.as_str(), *k)).collect();
    let order: Vec<(u32, bool)> = (0..10).map(|i| (i, true)).collect();
    let data = edit_data(&mods, &[("default", &order)]);
    let mut instance = EditableInstance::open("/inst".to_string(), data);
    let places = vec![
        ModOrderIndex(3),
        ModOrderIndex(8),
        ModOrderIndex(3),
        ModOrderIndex(1),
        ModOrderIndex(40),
    ];
    assert_eq!(instance.move_mods_at(&places, ModOrderIndex(5)), ModOrderIndex(5));
    let indices: Vec<u32> = instance.mod_order().iter().map(|e| e.mod_index().0).collect();
    assert_eq!(indices, vec![0, 2, 4, 5, 6, 1, 3, 8, 7, 9]);
    let nothing = foldhash::HashSet::default();
    assert_eq!(instance.move_mods(&nothing, ModOrderIndex(2)), ModOrderIndex(2));
    let indices: Vec<u32> = instance.mod_order().iter().map(|e| e.mod_index().0).collect();
    assert_eq!(indices, vec![0, 2, 4, 5, 6, 1, 3, 8, 7, 9]);
}

#[test]
fn removing_a_mod_shifts_the_indices_behind_it() {
    let mut instance = edit_three_mods();
    instance.switch_to_profile("other".to_string());
    instance.switch_to_profile("default".to_string());
    let dir = instance.remove_mod(ModIndex(0));
    assert_eq!(dir, Some("/inst/mods/a".to_string()));
    let names: Vec<String> = instance.mods().iter().map(|m| m.name().clone()).collect();
    assert_eq!(names, vec!["sep", "c"]);
    assert_eq!(instance.mods()[0].kind(), ModEntryKind::Separator);
    assert_eq!(edit_indices(instance.mod_order()), vec![(1, true), (0, true)]);
    let saved = edit_saved(&mut instance);
    assert_eq!(
        edit_indices(&saved.profiles.get("other").unwrap().mod_order.raw),
        vec![(0, true), (1, false)]
    );
    assert_eq!(instance.remove_mod(ModIndex(0)), None);
    assert_eq!(edit_indices(instance.mod_order()), vec![(0, true)]);
    assert_eq!(instance.remove_mod(ModIndex(0)), Some("/inst/mods/c".to_string()));
    assert!(instance.mods().is_empty());
    assert!(instance.mod_order().is_empty());
}

#[test]
fn removing_the_last_mod_keeps_the_other_indices() {
    let mut instance = edit_three_mods();
    instance.remove_mod(ModIndex(2));
    assert_eq!(edit_indices(instance.mod_order()), vec![(0, false), (1, true)]);
}

#[test]
fn creating_a_mod_appends_it_disabled() {
    let mut instance = edit_three_mods();
    assert_eq!(
        instance.create_mod("new mod", ModEntryKind::Mod),
        Ok(Some("/inst/mods/new mod".to_string()))
    );
    assert_eq!(instance.mods().len(), 4);
    assert_eq!(instance.mods()[3].name(), "new mod");
    assert_eq!(
        edit_indices(instance.mod_order()),
        vec![(2, true), (0, false), (1, true), (3, false)]
    );
    assert_eq!(instance.create_mod("divider", ModEntryKind::Separator), Ok(None));
    assert_eq!(instance.mods()[4].kind(), ModEntryKind::Separator);
    let saved = edit_saved(&mut instance);
    assert_eq!(saved.mods.len(), 5);
    assert_eq!(
        edit_indices(&saved.profiles.get("other").unwrap().mod_order.raw),
        vec![(1, true), (2, false)]
    );
    instance.switch_to_profile("other".to_string());
    assert_eq!(
        edit_indices(instance.mod_order()),
        vec![(1, true), (2, false), (0, false), (3, false), (4, false)]
    );
}

#[test]
fn creating_a_mod_with_a_taken_or_bad_name_fails() {
    let mut instance = edit_three_mods();
    assert_eq!(
        instance.create_mod("sep", ModEntryKind::Mod),
        Err(CreateModError::AlreadyExists)
    );
    assert_eq!(
        instance.create_mod("a/b", ModEntryKind::Mod),
        Err(CreateModError::InvalidName(InvalidModNameError::ForbiddenCharacter))
    );
    assert_eq!(
        instance.create_mod(&"n".repeat(256), ModEntryKind::Mod),
        Err(CreateModError::InvalidName(InvalidModNameError::TooLong))
    );
    assert_eq!(instance.mods().len(), 3);
    assert!(instance.save().is_none());
}

#[test]
fn a_created_mod_can_be_taken_back() {
    let mut instance = edit_three_mods();
    let before = edit_indices(instance.mod_order());
    instance.create_mod("doomed", ModEntryKind::Mod).unwrap();
    assert_eq!(instance.remove_mod(ModIndex(3)), Some("/inst/mods/doomed".to_string()));
    assert_eq!(instance.mods().len(), 3);
    assert_eq!(edit_indices(instance.mod_order()), before);
}

#[test]
fn renaming_a_mod_changes_its_declaration_only() {
    let mut instance = edit_three_mods();
    assert_eq!(
        instance.check_rename_mod(ModIndex(0), "alpha"),
        Ok(Some(("/inst/mods/a".to_string(), "/inst/mods/alpha".to_string())))
    );
    assert_eq!(instance.check_rename_mod(ModIndex(1), "divider"), Ok(None));
    assert_eq!(instance.mods()[0].name(), "a");
    assert_eq!(instance.rename_mod(ModIndex(0), "alpha"), Ok(()));
    assert_eq!(instance.mods()[0].name(), "alpha");
    assert_eq!(instance.mods()[0].kind(), ModEntryKind::Mod);
    assert_eq!(instance.rename_mod(ModIndex(1), "divider"), Ok(()));
    assert_eq!(instance.mods()[1].kind(), ModEntryKind::Separator);
    assert_eq!(edit_indices(instance.mod_order()), vec![(2, true), (0, false), (1, true)]);
}

#[test]
fn renaming_a_mod_to_a_taken_or_bad_name_fails() {
    let mut instance = edit_three_mods();
    assert_eq!(instance.check_rename_mod(ModIndex(0), "c"), Err(RenameModError::AlreadyExists));
    assert_eq!(instance.rename_mod(ModIndex(0), "c"), Err(RenameModError::AlreadyExists));
    assert_eq!(instance.rename_mod(ModIndex(0), "a"), Err(RenameModError::AlreadyExists));
    assert_eq!(
        instance.rename_mod(ModIndex(0), "x\ny"),
        Err(RenameModError::InvalidName(InvalidModNameError::ForbiddenCharacter))
    );
    assert_eq!(
        instance.check_rename_mod(ModIndex(0), "x\\y"),
        Err(RenameModError::InvalidName(InvalidModNameError::ForbiddenCharacter))
    );
    assert_eq!(instance.mods()[0].name(), "a");
}

#[test]
fn adding_a_profile_keeps_the_name_as_it_is_shown() {
    let mut instance = edit_three_mods();
    assert_eq!(
        instance.add_profile(" \t hard mode \u{3000}\n"),
        Some("hard mode".to_string())
    );
    let saved = edit_saved(&mut instance);
    assert_eq!(saved.profiles.len(), 3);
    let profile = saved.profiles.get("hard mode").unwrap();
    assert_eq!(profile.display_name(), "hard mode");
    assert!(profile.mod_order.is_empty());
}

#[test]
fn adding_a_profile_of_a_taken_name_numbers_it() {
    let mut instance = edit_three_mods();
    assert_eq!(instance.add_profile("other"), Some("other1".to_string()));
    assert_eq!(instance.add_profile("other"), Some("other2".to_string()));
    assert_eq!(instance.add_profile("other1"), Some("other11".to_string()));
    let saved = edit_saved(&mut instance);
    assert_eq!(saved.profiles.get("other2").unwrap().display_name(), "other");
    assert_eq!(saved.profiles.get("other11").unwrap().display_name(), "other1");
}

#[test]
fn adding_a_profile_of_a_long_name_cuts_it_down() {
    let mut instance = edit_three_mods();
    let long = "abcdefghijklmnopqrstuvwxyz0123";
    assert_eq!(instance.add_profile(long), Some("abcdefghijklmnopqrstuvwx".to_string()));
    assert_eq!(instance.add_profile(long), Some("abcdefghijklmnopqrstuvw1".to_string()));
    for n in 2..10 {
        assert_eq!(
            instance.add_profile(long),
            Some(format!("abcdefghijklmnopqrstuvw{}", n))
        );
    }
    assert_eq!(instance.add_profile(long), Some("abcdefghijklmnopqrstuv10".to_string()));
    let saved = edit_saved(&mut instance);
    assert_eq!(
        saved.profiles.get("abcdefghijklmnopqrstuv10").unwrap().display_name(),
        long
    );
}

#[test]
fn cutting_a_name_down_keeps_clusters_whole() {
    assert_eq!(truncate_str("hello", 24), "hello");
    assert_eq!(truncate_str("hello", 3), "hel");
    assert_eq!(truncate_str("hello", 0), "");
    assert_eq!(truncate_str("ae\u{301}o", 2), "a");
    assert_eq!(truncate_str("ae\u{301}o", 3), "a");
    assert_eq!(truncate_str("ae\u{301}o", 4), "ae\u{301}");
    assert_eq!(truncate_str("🇷🇺🇸🇹", 8), "🇷🇺");
    assert_eq!(truncate_str("🇷🇺🇸🇹", 7), "");
    assert_eq!(truncate_str("a\r\nb", 2), "a");
    assert_eq!(truncate_str("a\r\nb", 3), "a\r\n");
}

#[test]
fn text_helpers_compare_join_and_format() {
    assert!(str_less("a", "b"));
    assert!(str_less("", "a"));
    assert!(str_less("ab", "abc"));
    assert!(str_less("B", "a"));
    assert!(str_less("z", "é"));
    assert!(!str_less("b", "a"));
    assert!(!str_less("a", "a"));
    assert!(str_equal("möd", "möd"));
    assert!(!str_equal("mod", "möd"));
    assert!(!str_equal("a", "ab"));
    assert_eq!(join_path("/a", "b"), "/a/b");
    assert_eq!(join_path("/a/", "b"), "/a/b");
    assert_eq!(join_path("", "b"), "b");
    assert_eq!(join_path("/", "b"), "/b");
    assert_eq!(decimal_string(0), "0");
    assert_eq!(decimal_string(7), "7");
    assert_eq!(decimal_string(10), "10");
    assert_eq!(decimal_string(1905), "1905");
    assert_eq!(decimal_string(u32::MAX), "4294967295");
}

#[test]
fn a_short_free_profile_name_is_kept_as_it_is() {
    let mut instance = edit_three_mods();
    // 24 bytes: eight letters of three bytes each
    let name = "\u{20ac}".repeat(8);
    assert_eq!(name.len(), 24);
    assert_eq!(instance.add_profile(&name), Some(name.clone()));
    assert_eq!(instance.add_profile("  e\u{301}a  "), Some("e\u{301}a".to_string()));
    assert_eq!(truncate_str("e\u{301}a", 4), "e\u{301}a");
    assert_eq!(truncate_str("", 0), "");
}

#[test]
fn a_changed_instance_hands_out_one_write_request() {
    let mut instance = edit_three_mods();
    assert!(instance.save().is_none());
    instance.toggle_mod_enabled(ModOrderIndex(0));
    let request = instance.save().expect("the instance has changed");
    assert_eq!(request.target, WriteTarget::InstanceData);
    let written = InstanceData::from_bytes(&request.content).unwrap();
    assert_eq!(
        edit_indices(&written.profiles.get("default").unwrap().mod_order.raw),
        vec![(2, false), (0, false), (1, true)]
    );
    assert_eq!(written.serialize(), Some(request.content));
    assert!(instance.save().is_none());
}
