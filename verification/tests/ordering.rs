use modchain::mod_data::{ModDependency, ModDependencyEnum, ModFile, ModMetaData, TreeError};
use modchain::mod_order::build_mod_chain;

fn meta(guid: &str, depends: Vec<ModDependencyEnum>) -> ModMetaData {
    ModMetaData {
        name: guid.to_uppercase(),
        guid: guid.to_string(),
        author: "author".to_string(),
        version: "1.0.0".to_string(),
        depends,
    }
}

fn mod_file(guid: &str, depends: Vec<ModDependencyEnum>) -> ModFile {
    ModFile {
        manifest: 1,
        metadata: meta(guid, depends),
        filepath: format!("mods/{}.zip", guid),
        entries: vec!["mod.toml".to_string()],
    }
}

fn hard(on: &str) -> ModDependencyEnum {
    ModDependencyEnum::ImplicitHard(format!("{}:*", on))
}

fn guids(chain: &Vec<ModFile>) -> Vec<String> {
    chain.iter().map(|m| m.metadata.guid.clone()).collect()
}

#[test]
fn dependency_goes_first() {
    let a = mod_file("a", vec![]);
    let b = mod_file("b", vec![hard("a")]);
    let chain = build_mod_chain(&vec![a, b]);
    assert_eq!(guids(&chain), vec!["a".to_string(), "b".to_string()]);
}

#[test]
fn dependency_selected_last_is_pulled_forward() {
    // b depends on a; a is selected after b, and is inserted before it
    let b = mod_file("b", vec![hard("a")]);
    let a = mod_file("a", vec![]);
    let chain = build_mod_chain(&vec![b, a]);
    assert_eq!(guids(&chain), vec!["a".to_string(), "b".to_string()]);
}

#[test]
fn independent_mods_keep_no_dependency_promise() {
    // u has a dependency that is not part of the selection; v has none, so v
    // moves to the front
    let u = mod_file("u", vec![hard("elsewhere")]);
    let v = mod_file("v", vec![]);
    let chain = build_mod_chain(&vec![u, v]);
    assert_eq!(guids(&chain), vec!["v".to_string(), "u".to_string()]);
}

#[test]
fn chain_of_three_in_selection_order() {
    let a = mod_file("a", vec![]);
    let b = mod_file("b", vec![hard("a")]);
    let c = mod_file("c", vec![hard("b")]);
    let chain = build_mod_chain(&vec![a, b, c]);
    assert_eq!(
        guids(&chain),
        vec!["a".to_string(), "b".to_string(), "c".to_string()]
    );
}

#[test]
fn insertion_rules_on_a_mixed_selection() {
    // c depends on m, m depends on d, d depends on e; selected in the order
    // c, d, e, m. The insertion rules place m before c (its first dependent)
    // even though that puts m ahead of d, which it depends on: a selection
    // that lists a mod before its dependency can defeat the ordering.
    let c = mod_file("c", vec![hard("m")]);
    let d = mod_file("d", vec![hard("e")]);
    let e = mod_file("e", vec![]);
    let m = mod_file("m", vec![hard("d")]);
    let chain = build_mod_chain(&vec![c, d, e, m]);
    assert_eq!(
        guids(&chain),
        vec![
            "m".to_string(),
            "c".to_string(),
            "e".to_string(),
            "d".to_string()
        ]
    );
}

#[test]
fn every_mod_appears_exactly_once() {
    let a = mod_file("a", vec![]);
    let b = mod_file("b", vec![hard("a")]);
    let c = mod_file("c", vec![]);
    let chain = build_mod_chain(&vec![a, b, c]);
    let mut names = guids(&chain);
    names.sort();
    assert_eq!(
        names,
        vec!["a".to_string(), "b".to_string(), "c".to_string()]
    );
}

#[test]
fn dependency_tree_contains_own_guid() {
    let a = mod_file("a", vec![]);
    let pool = vec![a];
    let tree = pool[0].get_dependency_tree(&pool).unwrap();
    assert!(tree.in_dependency_tree(&"a".to_string()));
    assert!(!tree.in_dependency_tree(&"b".to_string()));
}

#[test]
fn dependency_tree_reaches_transitive_dependencies() {
    let a = mod_file("a", vec![]);
    let b = mod_file("b", vec![hard("a")]);
    let c = mod_file("c", vec![hard("b")]);
    let pool = vec![a, b, c];
    let tree = pool[2].get_dependency_tree(&pool).unwrap();
    assert!(tree.in_dependency_tree(&"a".to_string()));
    assert!(tree.in_dependency_tree(&"b".to_string()));
    assert!(tree.in_dependency_tree(&"c".to_string()));
}

#[test]
fn missing_hard_dependency_fails_the_tree() {
    let b = mod_file("b", vec![hard("a")]);
    let pool = vec![b];
    match pool[0].get_dependency_tree(&pool) {
        Err(TreeError::MissingDependency(guid)) => assert_eq!(guid, "a"),
        _ => panic!("expected MissingDependency"),
    }
}

#[test]
fn missing_soft_dependency_is_omitted_from_the_tree() {
    let soft = ModDependencyEnum::DependTable(ModDependency {
        guid: "nowhere".to_string(),
        soft: true,
        version: "*".to_string(),
    });
    let a = mod_file("a", vec![soft]);
    let pool = vec![a];
    let tree = pool[0].get_dependency_tree(&pool).unwrap();
    assert!(!tree.in_dependency_tree(&"nowhere".to_string()));
}

#[test]
fn dependency_cycle_is_detected() {
    let a = mod_file("a", vec![hard("b")]);
    let b = mod_file("b", vec![hard("a")]);
    let pool = vec![a, b];
    match pool[0].get_dependency_tree(&pool) {
        Err(TreeError::CyclicDependency(_)) => {}
        _ => panic!("expected CyclicDependency"),
    }
}

#[test]
fn matching_is_by_guid_and_version_range() {
    let a = meta("a", vec![]);
    let wide = ModDependency {
        guid: "a".to_string(),
        soft: false,
        version: "*".to_string(),
    };
    let narrow = ModDependency {
        guid: "a".to_string(),
        soft: false,
        version: ">=2.0".to_string(),
    };
    let other = ModDependency {
        guid: "b".to_string(),
        soft: false,
        version: "*".to_string(),
    };
    assert!(a.matches_dependency(&wide));
    assert!(!a.matches_dependency(&narrow));
    assert!(!a.matches_dependency(&other));
}

#[test]
fn compact_references_split_at_the_first_colon() {
    let dep = ModMetaData::get_dependency(&hard("base")).unwrap();
    assert_eq!(dep.guid, "base");
    assert_eq!(dep.version, "*");
    assert!(!dep.soft);

    let no_colon = ModDependencyEnum::ImplicitHard("base".to_string());
    assert!(ModMetaData::get_dependency(&no_colon).is_err());
}

#[test]
fn dependency_display_lists_hard_before_soft() {
    let soft_dep = ModDependencyEnum::DependTable(ModDependency {
        guid: "skin".to_string(),
        soft: true,
        version: "*".to_string(),
    });
    let m = meta("a", vec![soft_dep, hard("base")]);
    assert_eq!(m.dependency_display(), "base *, [skin *]");

    let none = meta("b", vec![]);
    assert_eq!(none.dependency_display(), "");

    let only_soft = meta(
        "c",
        vec![ModDependencyEnum::DependTable(ModDependency {
            guid: "skin".to_string(),
            soft: true,
            version: ">=1.0".to_string(),
        })],
    );
    assert_eq!(only_soft.dependency_display(), "[skin >=1.0]");
}

#[test]
fn semantics_check_accepts_only_semantic_versions() {
    let good = meta("a", vec![hard("b")]);
    assert!(good.validate_semantics().is_ok());

    let bad_version = ModMetaData {
        version: "one".to_string(),
        ..meta("a", vec![])
    };
    assert!(bad_version.validate_semantics().is_err());

    let bad_range = ModMetaData {
        ..meta("a", vec![ModDependencyEnum::ImplicitHard("b:nonsense".to_string())])
    };
    assert!(bad_range.validate_semantics().is_err());
}
