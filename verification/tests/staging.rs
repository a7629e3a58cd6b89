use mmm::deploy::{DeployInstance, DeployInstanceOpenError};
use mmm::file_tree::{build_path_tree, ModSource};
use mmm::instance::data::{InstanceData, InstanceDataOpenError};
use mmm::instance::profiles::Profiles;
use mmm::instance::{active_mods, mod_dir, Instance, ModDeclaration, ModEntryKind, ModIndex};
use mmm::instance::{ModOrderEntry, Profile};
use mmm::mods::Mods;
use mmm::mount::{overlay_options, tmpfs_options, MountOption, MountValue};
use mmm::namespace::{id_map_writes, identity_map_line, FileWrite};
use mmm::staging::{extend_path, nodes_fit, plan_for_nodes, plan_staging_tree, StagingAction};
use mmm::writer::{FilePaths, WriteTarget};

fn staging_data(profiles: &[(&str, &[(u32, bool)])]) -> InstanceData {
    let mods = vec![
        ModDeclaration::new("A".to_string(), ModEntryKind::Mod).unwrap(),
        ModDeclaration::new("B".to_string(), ModEntryKind::Mod).unwrap(),
    ];
    let mut map = Profiles::new();
    for (name, order) in profiles {
        let mut profile = Profile::new(name.to_uppercase());
        for (index, enabled) in order.iter() {
            let mut entry = ModOrderEntry::new(ModIndex(*index));
            entry.enabled = *enabled;
            profile.mod_order.push(entry);
        }
        map.insert(name.to_string(), profile);
    }
    InstanceData { mods: mods.into(), profiles: map }
}

fn staging_source(entries: &[(Option<usize>, &str, bool)]) -> ModSource {
    let mut source = ModSource::new();
    for (parent, name, is_dir) in entries {
        source.push(*parent, name.to_string(), *is_dir).unwrap();
    }
    source
}

#[test]
fn override_is_staged_as_a_link_to_the_winning_mod() {
    let data = staging_data(&[("default", &[(0, true), (1, true)])]);
    let instance = DeployInstance::from_data("/games/inst".to_string(), data, None).unwrap();
    let sources = vec![
        staging_source(&[(None, "cfg.ini", false)]),
        staging_source(&[(None, "cfg.ini", false)]),
    ];
    let tree = build_path_tree(&instance, &sources).unwrap();
    let plan = plan_staging_tree(&tree, &instance, "/tmp/mmm-x").unwrap();
    assert_eq!(
        plan,
        vec![StagingAction::Symlink {
            source_path: "/games/inst/mods/B/cfg.ini".to_string(),
            link_path: "/tmp/mmm-x/cfg.ini".to_string(),
        }]
    );
}

#[test]
fn deep_merge_is_staged_as_two_directories_and_two_links() {
    let data = staging_data(&[("default", &[(0, true), (1, true)])]);
    let instance = DeployInstance::from_data("/i".to_string(), data, None).unwrap();
    let sources = vec![
        staging_source(&[(None, "data", true), (Some(0), "sub", true), (Some(1), "one.dat", false)]),
        staging_source(&[(None, "data", true), (Some(0), "sub", true), (Some(1), "two.dat", false)]),
    ];
    let tree = build_path_tree(&instance, &sources).unwrap();
    let plan = plan_staging_tree(&tree, &instance, "/stage").unwrap();
    assert_eq!(
        plan,
        vec![
            StagingAction::Mkdir { path: "/stage/data".to_string() },
            StagingAction::Mkdir { path: "/stage/data/sub".to_string() },
            StagingAction::Symlink {
                source_path: "/i/mods/B/data/sub/two.dat".to_string(),
                link_path: "/stage/data/sub/two.dat".to_string(),
            },
            StagingAction::Symlink {
                source_path: "/i/mods/A/data/sub/one.dat".to_string(),
                link_path: "/stage/data/sub/one.dat".to_string(),
            },
        ]
    );
}

#[test]
fn empty_tree_has_an_empty_plan() {
    let data = staging_data(&[("default", &[])]);
    let instance = DeployInstance::from_data("/i".to_string(), data, None).unwrap();
    let tree = build_path_tree(&instance, &vec![ModSource::new(), ModSource::new()]).unwrap();
    assert_eq!(plan_staging_tree(&tree, &instance, "/stage"), Some(vec![]));
}

#[test]
fn tree_of_another_instance_has_no_plan() {
    let data = staging_data(&[("default", &[(1, true)])]);
    let instance = DeployInstance::from_data("/i".to_string(), data, None).unwrap();
    let sources = vec![ModSource::new(), staging_source(&[(None, "f", false)])];
    let tree = build_path_tree(&instance, &sources).unwrap();
    let smaller = InstanceData {
        mods: vec![ModDeclaration::new("A".to_string(), ModEntryKind::Mod).unwrap()].into(),
        profiles: {
            let mut profiles = Profiles::new();
            profiles.insert("default".to_string(), Profile::new("D".to_string()));
            profiles
        },
    };
    let other = DeployInstance::from_data("/o".to_string(), smaller, None).unwrap();
    assert_eq!(plan_staging_tree(&tree, &other, "/stage"), None);
    let nodes = tree.children(tree.root());
    assert!(nodes_fit(&tree, &nodes, 2));
    assert!(!nodes_fit(&tree, &nodes, 1));
    assert_eq!(
        plan_for_nodes(&tree, &instance, "/s", &nodes),
        vec![StagingAction::Symlink {
            source_path: "/i/mods/B/f".to_string(),
            link_path: "/s/f".to_string(),
        }]
    );
}

#[test]
fn paths_are_extended_name_by_name() {
    assert_eq!(extend_path("/base", &vec![]), "/base");
    assert_eq!(
        extend_path("/base", &vec!["a".to_string(), "b c".to_string()]),
        "/base/a/b c"
    );
    assert_eq!(extend_path("/", &vec!["a".to_string()]), "/a");
    assert_eq!(extend_path("", &vec!["a".to_string(), "b".to_string()]), "a/b");
}

#[test]
fn profile_is_chosen_by_name_then_default_then_first() {
    let both: &[(&str, &[(u32, bool)])] = &[("alpha", &[(0, true)]), ("default", &[(1, true)])];
    let named = DeployInstance::from_data("/i".to_string(), staging_data(both), Some("alpha")).unwrap();
    assert_eq!(named.mod_order()[0].mod_index(), ModIndex(0));
    let default = DeployInstance::from_data("/i".to_string(), staging_data(both), None).unwrap();
    assert_eq!(default.mod_order()[0].mod_index(), ModIndex(1));
    let others: &[(&str, &[(u32, bool)])] = &[("zeta", &[(1, true)]), ("beta", &[(0, true)])];
    let first = DeployInstance::from_data("/i".to_string(), staging_data(others), None).unwrap();
    assert_eq!(first.mod_order()[0].mod_index(), ModIndex(0));
    assert_eq!(first.dir(), "/i");
    assert_eq!(first.mods().len(), 2);
}

#[test]
fn missing_profile_is_an_error() {
    let one: &[(&str, &[(u32, bool)])] = &[("alpha", &[])];
    assert_eq!(
        DeployInstance::from_data("/i".to_string(), staging_data(one), Some("beta")),
        Err(DeployInstanceOpenError::ProfileNotFound("beta".to_string()))
    );
    assert_eq!(
        DeployInstance::from_data("/i".to_string(), staging_data(&[]), None),
        Err(DeployInstanceOpenError::NoProfiles)
    );
    assert_eq!(
        DeployInstance::from_data("/i".to_string(), staging_data(&[]), Some("default")),
        Err(DeployInstanceOpenError::ProfileNotFound("default".to_string()))
    );
}

#[test]
fn instance_is_opened_from_the_bytes_of_its_data_file() {
    let profiles: &[(&str, &[(u32, bool)])] = &[("default", &[(1, true), (0, false)])];
    let bytes = staging_data(profiles).serialize().unwrap();
    let instance = DeployInstance::open("/i".to_string(), &bytes, None).unwrap();
    assert_eq!(instance.mods()[1].name(), "B");
    assert_eq!(instance.mod_order().len(), 2);
    assert_eq!(active_mods(&instance), vec![ModIndex(1)]);
    assert_eq!(mod_dir(&instance, &instance.mods()[0]), "/i/mods/A");
    assert_eq!(
        DeployInstance::open("/i".to_string(), &bytes[..bytes.len() - 1], None),
        Err(DeployInstanceOpenError::DataOpen(InstanceDataOpenError::Deserialize))
    );
    assert_eq!(
        DeployInstance::open("/i".to_string(), &bytes, Some("nope")),
        Err(DeployInstanceOpenError::ProfileNotFound("nope".to_string()))
    );
}

#[test]
fn flat_mod_list_names_and_paths() {
    let mods = Mods::new("/inst/mods".to_string(), vec!["one".to_string(), "two".to_string()]);
    assert_eq!(mods.dir(), "/inst/mods");
    assert_eq!(mods.names(), &vec!["one".to_string(), "two".to_string()]);
    assert_eq!(mods.name(ModIndex(1)), Some("two"));
    assert_eq!(mods.name(ModIndex(2)), None);
    assert_eq!(mods.path(ModIndex(0)), Some("/inst/mods/one".to_string()));
    assert_eq!(mods.path(ModIndex(7)), None);
    assert_eq!(mods.enumerate(), vec![(ModIndex(0), "one"), (ModIndex(1), "two")]);
}

#[test]
fn flat_mod_list_is_read_from_a_list_of_names() {
    let mods = Mods::read("/inst/mods".to_string(), br#" ["one", "tw\u00f6", "a/b"] "#).unwrap();
    assert_eq!(mods.names(), &vec!["one".to_string(), "twö".to_string(), "a/b".to_string()]);
    assert_eq!(mods.dir(), "/inst/mods");
    assert_eq!(Mods::read("/m".to_string(), b"[]").unwrap().names().len(), 0);
    assert_eq!(Mods::read("/m".to_string(), b"[\"one\", 2]"), None);
    assert_eq!(Mods::read("/m".to_string(), b"{\"one\": \"two\"}"), None);
    assert_eq!(Mods::read("/m".to_string(), b"[\"one\""), None);
    assert_eq!(Mods::read("/m".to_string(), b""), None);
}

#[test]
fn data_file_is_written_beside_its_temporary_file() {
    let paths = FilePaths::from_dir("/inst");
    assert_eq!(
        paths.path_of_target(WriteTarget::InstanceData),
        ("/inst/mmm.cbor", "/inst/mmm.cbor.tmp")
    );
}

#[test]
fn tmpfs_belongs_to_the_user() {
    let text = |key: &str, value: &str| MountOption {
        key: key.to_string(),
        value: MountValue::Text(value.to_string()),
    };
    assert_eq!(
        tmpfs_options(1000, 4294967295),
        vec![
            text("source", "tmpfs"),
            text("uid", "1000"),
            text("gid", "4294967295"),
            text("mode", "750"),
        ]
    );
    assert_eq!(tmpfs_options(0, 10)[1], text("uid", "0"));
    assert_eq!(tmpfs_options(0, 10)[2], text("gid", "10"));
}

#[test]
fn group_map_is_written_after_groups_are_denied() {
    assert_eq!(identity_map_line(1000), "1000 1000 1\n");
    assert_eq!(identity_map_line(0), "0 0 1\n");
    let write = |path: &str, content: &str| FileWrite {
        path: path.to_string(),
        content: content.to_string(),
    };
    assert_eq!(
        id_map_writes(1000, 100),
        vec![
            write("/proc/self/uid_map", "1000 1000 1\n"),
            write("/proc/self/setgroups", "deny"),
            write("/proc/self/gid_map", "100 100 1\n"),
        ]
    );
}

#[test]
fn staging_tree_is_the_upper_of_the_lower_layers() {
    assert_eq!(
        overlay_options("/tmp/mmm-abc"),
        vec![
            MountOption { key: "source".to_string(), value: MountValue::Text("overlay".to_string()) },
            MountOption {
                key: "lowerdir+".to_string(),
                value: MountValue::Text("/tmp/mmm-abc".to_string()),
            },
            MountOption { key: "lowerdir+".to_string(), value: MountValue::Target },
        ]
    );
}
