use mmm::deploy::DeployInstance;
use mmm::file_tree::{build_path_tree, FileTree, ModSource, PathProbe, TreeBuildError};
use mmm::file_tree::{FileTreeDisplayKind, TreeNodeKind, UnresolvedTreeBuildError};
use mmm::instance::data::InstanceData;
use mmm::instance::profiles::Profiles;
use mmm::instance::{ModDeclaration, ModEntryKind, ModIndex, ModOrderEntry, Profile};

fn merge_instance(mods: &[(&str, ModEntryKind)], order: &[(u32, bool)]) -> DeployInstance {
    let mods: Vec<ModDeclaration> = mods
        .iter()
        .map(|(name, kind)| ModDeclaration::new(name.to_string(), *kind).unwrap())
        .collect();
    let mut profile = Profile::new("Default".to_string());
    for (index, enabled) in order {
        let mut entry = ModOrderEntry::new(ModIndex(*index));
        entry.enabled = *enabled;
        profile.mod_order.push(entry);
    }
    let mut profiles = Profiles::new();
    profiles.insert("default".to_string(), profile);
    let data = InstanceData { mods: mods.into(), profiles };
    DeployInstance::from_data("/inst".to_string(), data, None).unwrap()
}

fn merge_source(entries: &[(Option<usize>, &str, bool)]) -> ModSource {
    let mut source = ModSource::new();
    for (parent, name, is_dir) in entries {
        source.push(*parent, name.to_string(), *is_dir).unwrap();
    }
    source
}

fn merge_children(tree: &FileTree, id: nary_tree::NodeId) -> Vec<(String, Option<Vec<u32>>)> {
    tree.children(id)
        .into_iter()
        .map(|child| {
            let node = tree.node(child);
            let providers = match node.kind() {
                TreeNodeKind::Dir => None,
                TreeNodeKind::File { providing_mods } => {
                    Some(providing_mods.to_vec().iter().map(|m| m.0).collect())
                }
            };
            (node.name().clone(), providers)
        })
        .collect()
}

#[test]
fn empty_mod_list_gives_root_only() {
    let instance = merge_instance(&[], &[]);
    let tree = build_path_tree(&instance, &vec![]).unwrap();
    let root = tree.root();
    assert_eq!(tree.node(root).name(), ".");
    assert_eq!(tree.node(root).kind(), &TreeNodeKind::Dir);
    assert!(tree.children(root).is_empty());
    assert_eq!(tree.traverse_pre_order().len(), 1);
}

#[test]
fn all_mods_disabled_gives_root_only() {
    let instance = merge_instance(
        &[("A", ModEntryKind::Mod), ("B", ModEntryKind::Mod)],
        &[(0, false), (1, false)],
    );
    let sources = vec![
        merge_source(&[(None, "a.txt", false)]),
        merge_source(&[(None, "b.txt", false)]),
    ];
    let tree = build_path_tree(&instance, &sources).unwrap();
    assert!(tree.children(tree.root()).is_empty());
}

#[test]
fn two_mods_with_disjoint_files() {
    let instance = merge_instance(
        &[("A", ModEntryKind::Mod), ("B", ModEntryKind::Mod)],
        &[(0, true), (1, true)],
    );
    let sources = vec![
        merge_source(&[(None, "a.txt", false)]),
        merge_source(&[(None, "b.txt", false)]),
    ];
    let tree = build_path_tree(&instance, &sources).unwrap();
    let mut children = merge_children(&tree, tree.root());
    children.sort();
    assert_eq!(
        children,
        vec![
            ("a.txt".to_string(), Some(vec![0])),
            ("b.txt".to_string(), Some(vec![1])),
        ]
    );
}

#[test]
fn later_mod_overrides_earlier_mod() {
    let instance = merge_instance(
        &[("A", ModEntryKind::Mod), ("B", ModEntryKind::Mod)],
        &[(0, true), (1, true)],
    );
    let sources = vec![
        merge_source(&[(None, "cfg.ini", false)]),
        merge_source(&[(None, "cfg.ini", false)]),
    ];
    let tree = build_path_tree(&instance, &sources).unwrap();
    assert_eq!(
        merge_children(&tree, tree.root()),
        vec![("cfg.ini".to_string(), Some(vec![1, 0]))]
    );
}

#[test]
fn disabled_override_is_ignored() {
    let instance = merge_instance(
        &[("A", ModEntryKind::Mod), ("B", ModEntryKind::Mod)],
        &[(0, true), (1, false)],
    );
    let sources = vec![
        merge_source(&[(None, "cfg.ini", false)]),
        merge_source(&[(None, "cfg.ini", false)]),
    ];
    let tree = build_path_tree(&instance, &sources).unwrap();
    assert_eq!(
        merge_children(&tree, tree.root()),
        vec![("cfg.ini".to_string(), Some(vec![0]))]
    );
}

#[test]
fn separator_contributes_no_files() {
    let instance = merge_instance(
        &[("A", ModEntryKind::Mod), ("Sep", ModEntryKind::Separator)],
        &[(0, true), (1, true)],
    );
    let sources = vec![
        merge_source(&[(None, "a.txt", false)]),
        merge_source(&[(None, "ghost.txt", false)]),
    ];
    let tree = build_path_tree(&instance, &sources).unwrap();
    assert_eq!(
        merge_children(&tree, tree.root()),
        vec![("a.txt".to_string(), Some(vec![0]))]
    );
}

#[test]
fn three_providers_are_listed_from_last_in_order_to_first() {
    let instance = merge_instance(
        &[("A", ModEntryKind::Mod), ("B", ModEntryKind::Mod), ("C", ModEntryKind::Mod)],
        &[(2, true), (0, true), (1, true)],
    );
    let sources = vec![
        merge_source(&[(None, "f", false)]),
        merge_source(&[(None, "f", false)]),
        merge_source(&[(None, "f", false)]),
    ];
    let tree = build_path_tree(&instance, &sources).unwrap();
    assert_eq!(
        merge_children(&tree, tree.root()),
        vec![("f".to_string(), Some(vec![1, 0, 2]))]
    );
}

#[test]
fn directory_and_file_at_one_path_conflict() {
    let instance = merge_instance(
        &[("A", ModEntryKind::Mod), ("B", ModEntryKind::Mod)],
        &[(0, true), (1, true)],
    );
    let sources = vec![
        merge_source(&[(None, "x", false)]),
        merge_source(&[(None, "x", true), (Some(0), "y", false)]),
    ];
    let error = match build_path_tree(&instance, &sources) {
        Ok(_) => panic!("the merge must fail"),
        Err(error) => error,
    };
    assert_eq!(
        error,
        UnresolvedTreeBuildError::TypeMismatch {
            path: vec!["x".to_string()],
            mod_index: ModIndex(0),
            is_dir: false,
        }
    );
    let mods = vec![
        ModDeclaration::new("A".to_string(), ModEntryKind::Mod).unwrap(),
        ModDeclaration::new("B".to_string(), ModEntryKind::Mod).unwrap(),
    ];
    assert_eq!(error.mods_to_probe(&mods), vec![ModIndex(1)]);
    let probes = vec![PathProbe { mod_index: ModIndex(1), is_dir: true }];
    let resolved = error.with_context(&mods, &probes);
    let message = match &resolved {
        TreeBuildError::TypeMismatch(message) => message.clone(),
        TreeBuildError::Io(_) => panic!("a conflict is no read failure"),
    };
    assert!(message.contains("x"));
    assert!(message.contains("A"));
    assert!(message.contains("B"));
    assert_eq!(
        message,
        "'x' is used as both a directory and a file by different mods: it's a file in 'A', but a directory in 'B'"
    );
    assert_eq!(resolved.message(), &message);
}

#[test]
fn conflict_message_joins_the_other_mods() {
    let mods = vec![
        ModDeclaration::new("A".to_string(), ModEntryKind::Mod).unwrap(),
        ModDeclaration::new("B".to_string(), ModEntryKind::Mod).unwrap(),
        ModDeclaration::new("S".to_string(), ModEntryKind::Separator).unwrap(),
        ModDeclaration::new("C".to_string(), ModEntryKind::Mod).unwrap(),
        ModDeclaration::new("D".to_string(), ModEntryKind::Mod).unwrap(),
    ];
    let error = UnresolvedTreeBuildError::TypeMismatch {
        path: vec!["data".to_string(), "x".to_string()],
        mod_index: ModIndex(1),
        is_dir: true,
    };
    assert_eq!(
        error.mods_to_probe(&mods),
        vec![ModIndex(0), ModIndex(3), ModIndex(4)]
    );
    let probes = vec![
        PathProbe { mod_index: ModIndex(0), is_dir: false },
        PathProbe { mod_index: ModIndex(1), is_dir: false },
        PathProbe { mod_index: ModIndex(2), is_dir: false },
        PathProbe { mod_index: ModIndex(3), is_dir: true },
        PathProbe { mod_index: ModIndex(4), is_dir: false },
        PathProbe { mod_index: ModIndex(9), is_dir: false },
    ];
    assert_eq!(
        error.with_context(&mods, &probes),
        TreeBuildError::TypeMismatch(
            "'x' is used as both a directory and a file by different mods: it's a directory in 'B', but a file in 'A', 'D'"
                .to_string()
        )
    );
}

#[test]
fn conflict_message_without_other_mods_names_none() {
    let mods = vec![ModDeclaration::new("A".to_string(), ModEntryKind::Mod).unwrap()];
    let error = UnresolvedTreeBuildError::TypeMismatch {
        path: vec!["x".to_string()],
        mod_index: ModIndex(0),
        is_dir: false,
    };
    assert!(error.mods_to_probe(&mods).is_empty());
    assert_eq!(
        error.with_context(&mods, &vec![]),
        TreeBuildError::TypeMismatch(
            "'x' is used as both a directory and a file by different mods: it's a file in 'A', but a directory in ''"
                .to_string()
        )
    );
}

#[test]
fn read_failure_ends_the_merge() {
    let instance = merge_instance(
        &[("A", ModEntryKind::Mod), ("B", ModEntryKind::Mod)],
        &[(0, true), (1, true)],
    );
    let mut broken = merge_source(&[(None, "b.txt", false)]);
    broken.set_failure("permission denied".to_string());
    let sources = vec![merge_source(&[(None, "a.txt", false)]), broken];
    let error = match build_path_tree(&instance, &sources) {
        Ok(_) => panic!("the merge must fail"),
        Err(error) => error,
    };
    assert_eq!(
        error,
        UnresolvedTreeBuildError::Io {
            mod_index: ModIndex(1),
            message: "permission denied".to_string(),
        }
    );
    assert!(error.mods_to_probe(&[].to_vec()).is_empty());
    assert_eq!(
        error.with_context(&vec![], &vec![]),
        TreeBuildError::Io("permission denied".to_string())
    );
}

#[test]
fn conflict_comes_before_a_later_read_failure() {
    let instance = merge_instance(
        &[("A", ModEntryKind::Mod), ("B", ModEntryKind::Mod)],
        &[(0, true), (1, true)],
    );
    let mut a = merge_source(&[(None, "x", true)]);
    a.set_failure("gone".to_string());
    let sources = vec![a, merge_source(&[(None, "x", false)])];
    let error = match build_path_tree(&instance, &sources) {
        Ok(_) => panic!("the merge must fail"),
        Err(error) => error,
    };
    assert_eq!(
        error,
        UnresolvedTreeBuildError::TypeMismatch {
            path: vec!["x".to_string()],
            mod_index: ModIndex(0),
            is_dir: true,
        }
    );
}

#[test]
fn deep_directories_are_merged() {
    let instance = merge_instance(
        &[("A", ModEntryKind::Mod), ("B", ModEntryKind::Mod)],
        &[(0, true), (1, true)],
    );
    let sources = vec![
        merge_source(&[(None, "data", true), (Some(0), "sub", true), (Some(1), "one.dat", false)]),
        merge_source(&[(None, "data", true), (Some(0), "sub", true), (Some(1), "two.dat", false)]),
    ];
    let tree = build_path_tree(&instance, &sources).unwrap();
    let root = tree.root();
    assert_eq!(merge_children(&tree, root), vec![("data".to_string(), None)]);
    let data = tree.find_child_with_name(root, "data").unwrap();
    assert_eq!(merge_children(&tree, data), vec![("sub".to_string(), None)]);
    let sub = tree.find_child_with_name(data, "sub").unwrap();
    assert_eq!(
        merge_children(&tree, sub),
        vec![
            ("two.dat".to_string(), Some(vec![1])),
            ("one.dat".to_string(), Some(vec![0])),
        ]
    );
    assert_eq!(tree.path(sub), vec!["data".to_string(), "sub".to_string()]);
    assert!(tree.find_child_with_name(sub, "three.dat").is_none());
    let names: Vec<String> = tree
        .traverse_pre_order()
        .into_iter()
        .map(|id| tree.node(id).name().clone())
        .collect();
    assert_eq!(names, vec![".", "data", "sub", "two.dat", "one.dat"]);
}

#[test]
fn link_in_a_mod_counts_as_what_the_walk_reports() {
    let instance = merge_instance(&[("A", ModEntryKind::Mod)], &[(0, true)]);
    let sources = vec![merge_source(&[(None, "link-to-dir", false)])];
    let tree = build_path_tree(&instance, &sources).unwrap();
    assert_eq!(
        merge_children(&tree, tree.root()),
        vec![("link-to-dir".to_string(), Some(vec![0]))]
    );
}

#[test]
fn entry_by_entry_merge_reports_the_node_in_the_way() {
    let mut tree = FileTree::new();
    let root = tree.root();
    let dir = tree.merge_entry(root, ModIndex(3), "x", true).unwrap();
    let file = tree.merge_entry(dir, ModIndex(3), "y", false).unwrap();
    assert_eq!(tree.merge_entry(dir, ModIndex(2), "y", false), Ok(file));
    assert_eq!(tree.merge_entry(root, ModIndex(2), "x", true), Ok(dir));
    assert_eq!(tree.merge_entry(root, ModIndex(1), "x", false), Err(dir));
    assert_eq!(tree.merge_entry(dir, ModIndex(1), "y", true), Err(file));
    let providers = match tree.node(file).kind() {
        TreeNodeKind::File { providing_mods } => providing_mods,
        TreeNodeKind::Dir => panic!("a file was entered"),
    };
    assert_eq!(providers.to_vec(), vec![ModIndex(3), ModIndex(2)]);
    assert_eq!(providers.len(), 2);
    assert_eq!(providers.first(), Some(ModIndex(3)));
    assert_eq!(providers.get(1), Some(ModIndex(2)));
    assert_eq!(providers.get(2), None);
}

#[test]
fn provider_list_grows_past_what_it_holds_in_place() {
    let mut tree = FileTree::new();
    let root = tree.root();
    let file = tree.merge_entry(root, ModIndex(0), "f", false).unwrap();
    for index in 1..9 {
        assert_eq!(tree.merge_entry(root, ModIndex(index), "f", false), Ok(file));
    }
    let providers = match tree.node(file).kind() {
        TreeNodeKind::File { providing_mods } => providing_mods.to_vec(),
        TreeNodeKind::Dir => panic!("a file was entered"),
    };
    assert_eq!(providers, (0..9).map(ModIndex).collect::<Vec<_>>());
}

#[test]
fn listing_refuses_an_entry_without_a_directory_above_it() {
    let mut source = ModSource::new();
    assert_eq!(source.push(None, "file".to_string(), false), Some(0));
    assert_eq!(source.push(Some(0), "below-a-file".to_string(), false), None);
    assert_eq!(source.push(Some(5), "nowhere".to_string(), false), None);
    assert_eq!(source.push(None, "dir".to_string(), true), Some(1));
    assert_eq!(source.push(Some(1), "inner".to_string(), false), Some(2));
    assert_eq!(source.len(), 3);
    assert_eq!(source.entry(2).name, "inner");
    assert_eq!(source.path_of_entry(2), vec!["dir".to_string(), "inner".to_string()]);
    assert_eq!(source.failure(), None);
}

#[test]
fn conflicts_only_view_hides_uncontested_files() {
    let instance = merge_instance(
        &[("A", ModEntryKind::Mod), ("B", ModEntryKind::Mod)],
        &[(0, true), (1, true)],
    );
    let sources = vec![
        merge_source(&[
            (None, "shared", true),
            (Some(0), "cfg.ini", false),
            (None, "only-a", true),
            (Some(2), "a.txt", false),
            (None, "top.txt", false),
        ]),
        merge_source(&[(None, "shared", true), (Some(0), "cfg.ini", false)]),
    ];
    let tree = build_path_tree(&instance, &sources).unwrap();
    let root = tree.root();
    let all: Vec<String> = tree
        .visible_children(root, FileTreeDisplayKind::All)
        .into_iter()
        .map(|id| tree.node(id).name().clone())
        .collect();
    assert_eq!(all, vec!["shared", "only-a", "top.txt"]);
    let contested: Vec<String> = tree
        .visible_children(root, FileTreeDisplayKind::Conflicts)
        .into_iter()
        .map(|id| tree.node(id).name().clone())
        .collect();
    assert_eq!(contested, vec!["shared"]);
    assert!(tree.has_conflicts(root));
    let only_a = tree.find_child_with_name(root, "only-a").unwrap();
    assert!(!tree.has_conflicts(only_a));
}

#[test]
fn listing_refuses_a_name_that_its_directory_already_holds() {
    let mut source = ModSource::new();
    assert_eq!(source.push(None, "f".to_string(), false), Some(0));
    assert_eq!(source.push(None, "f".to_string(), false), None);
    assert_eq!(source.push(None, "f".to_string(), true), None);
    assert_eq!(source.push(None, "d".to_string(), true), Some(1));
    // the same name in another directory is another path
    assert_eq!(source.push(Some(1), "f".to_string(), false), Some(2));
    assert_eq!(source.push(Some(1), "f".to_string(), false), None);
    assert_eq!(source.push(Some(1), "d".to_string(), true), Some(3));
    assert_eq!(source.len(), 4);
    assert!(source.has_entry_named(None, "f"));
    assert!(source.has_entry_named(Some(1), "d"));
    assert!(!source.has_entry_named(Some(3), "f"));
    assert!(!source.has_entry_named(None, "F"));
}

#[test]
fn a_mod_provides_a_file_once() {
    let instance = merge_instance(&[("A", ModEntryKind::Mod)], &[(0, true)]);
    let mut source = ModSource::new();
    assert_eq!(source.push(None, "f".to_string(), false), Some(0));
    assert_eq!(source.push(None, "f".to_string(), false), None);
    let tree = build_path_tree(&instance, &vec![source]).unwrap();
    assert_eq!(merge_children(&tree, tree.root()), vec![("f".to_string(), Some(vec![0]))]);
}

#[test]
fn the_walk_comes_to_every_node_once_and_to_a_directory_first() {
    let instance = merge_instance(
        &[("A", ModEntryKind::Mod), ("B", ModEntryKind::Mod)],
        &[(0, true), (1, true)],
    );
    let sources = vec![
        merge_source(&[(None, "a", true), (Some(0), "x", false), (None, "top", false)]),
        merge_source(&[(None, "b", true), (Some(0), "c", true), (Some(1), "y", false)]),
    ];
    let tree = build_path_tree(&instance, &sources).unwrap();
    let paths: Vec<Vec<String>> =
        tree.traverse_pre_order().into_iter().map(|id| tree.path(id)).collect();
    let expected: Vec<Vec<&str>> = vec![
        vec![],
        vec!["b"],
        vec!["b", "c"],
        vec!["b", "c", "y"],
        vec!["a"],
        vec!["a", "x"],
        vec!["top"],
    ];
    assert_eq!(paths, expected);
    for (i, path) in paths.iter().enumerate().skip(1) {
        let above = &path[..path.len() - 1];
        assert!(paths[..i].iter().any(|earlier| earlier.as_slice() == above));
        assert!(!paths[..i].contains(path));
    }
}
