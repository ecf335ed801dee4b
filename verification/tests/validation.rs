use modchain::mod_data::{ModDependency, ModDependencyEnum, ModFile, ModMetaData};
use modchain::mod_validation::{
    check_mod_dependencies, check_mod_security, check_patch_validity, validate_active_mods,
    validate_selection, ModCheckResult,
};

fn meta(guid: &str, version: &str, depends: Vec<ModDependencyEnum>) -> ModMetaData {
    ModMetaData {
        name: guid.to_uppercase(),
        guid: guid.to_string(),
        author: "author".to_string(),
        version: version.to_string(),
        depends,
    }
}

fn mod_file(guid: &str, version: &str, depends: Vec<ModDependencyEnum>, entries: &[&str]) -> ModFile {
    ModFile {
        manifest: 1,
        metadata: meta(guid, version, depends),
        filepath: format!("mods/{}.zip", guid),
        entries: entries.iter().map(|e| e.to_string()).collect(),
    }
}

fn hard(on: &str) -> ModDependencyEnum {
    ModDependencyEnum::ImplicitHard(format!("{}:*", on))
}

fn soft(on: &str) -> ModDependencyEnum {
    ModDependencyEnum::DependTable(ModDependency {
        guid: on.to_string(),
        soft: true,
        version: "*".to_string(),
    })
}

#[test]
fn empty_selection_is_ok() {
    let verdict = validate_active_mods(&vec![]);
    assert!(matches!(verdict, ModCheckResult::ModsOk()));
}

#[test]
fn clean_selection_is_ok() {
    let a = mod_file("a", "1.0.0", vec![], &["mod.toml", "a.png"]);
    let b = mod_file("b", "1.0.0", vec![hard("a")], &["mod.toml", "b.png"]);
    let verdict = validate_active_mods(&vec![a, b]);
    assert!(matches!(verdict, ModCheckResult::ModsOk()));
}

#[test]
fn executable_payload_is_insecure() {
    let a = mod_file("a", "1.0.0", vec![], &["mod.toml", "virus.exe"]);
    match validate_active_mods(&vec![a]) {
        ModCheckResult::ModInsecurity(guid, msg) => {
            assert_eq!(guid, "a");
            assert_eq!(msg, "DISALLOWED FILE virus.exe, REPORT IMMEDIATELY");
        }
        _ => panic!("expected ModInsecurity"),
    }
}

#[test]
fn security_check_runs_before_all_others() {
    // the mod also has a missing hard dependency and a misnamed patch, but
    // the security violation is reported first
    let a = mod_file(
        "a",
        "1.0.0",
        vec![hard("nowhere")],
        &["mod.toml", "tool.dll", "other.xdelta"],
    );
    match validate_active_mods(&vec![a]) {
        ModCheckResult::ModInsecurity(guid, _) => assert_eq!(guid, "a"),
        _ => panic!("expected ModInsecurity"),
    }
}

#[test]
fn direct_binary_override_is_insecure() {
    let a = mod_file("a", "1.0.0", vec![], &["mod.toml", "data.win"]);
    match validate_active_mods(&vec![a]) {
        ModCheckResult::ModInsecurity(_, msg) => {
            assert_eq!(msg, "data.win is not allowed to be overridden");
        }
        _ => panic!("expected ModInsecurity"),
    }
}

#[test]
fn misnamed_patch_is_flagged() {
    let a = mod_file("a", "1.0.0", vec![], &["mod.toml", "other.xdelta"]);
    match validate_active_mods(&vec![a]) {
        ModCheckResult::InvalidPatchNames(guid, bad) => {
            assert_eq!(guid, "a");
            assert_eq!(bad, vec!["other.xdelta".to_string()]);
        }
        _ => panic!("expected InvalidPatchNames"),
    }
}

#[test]
fn recognized_patch_name_is_accepted() {
    let a = mod_file("a", "1.0.0", vec![], &["mod.toml", "patch.xdelta"]);
    assert!(matches!(validate_active_mods(&vec![a]), ModCheckResult::ModsOk()));
}

#[test]
fn missing_hard_dependencies_accumulate() {
    let a = mod_file("a", "1.0.0", vec![hard("x")], &["mod.toml"]);
    let b = mod_file("b", "1.0.0", vec![hard("y")], &["mod.toml"]);
    match validate_active_mods(&vec![a, b]) {
        ModCheckResult::FailedDependency(missing, blamed) => {
            assert_eq!(missing, vec!["x *".to_string(), "y *".to_string()]);
            assert_eq!(blamed, vec!["a".to_string(), "b".to_string()]);
        }
        _ => panic!("expected FailedDependency"),
    }
}

#[test]
fn version_range_must_match_candidate() {
    let a = mod_file("a", "1.0.0", vec![], &["mod.toml"]);
    let b = mod_file(
        "b",
        "1.0.0",
        vec![ModDependencyEnum::ImplicitHard("a:>=2.0".to_string())],
        &["mod.toml"],
    );
    match validate_active_mods(&vec![a, b]) {
        ModCheckResult::FailedDependency(missing, blamed) => {
            assert_eq!(missing, vec!["a >=2.0".to_string()]);
            assert_eq!(blamed, vec!["b".to_string()]);
        }
        _ => panic!("expected FailedDependency"),
    }
}

#[test]
fn missing_soft_dependency_is_not_an_error() {
    let a = mod_file("a", "1.0.0", vec![soft("nowhere")], &["mod.toml"]);
    assert!(matches!(validate_active_mods(&vec![a]), ModCheckResult::ModsOk()));
}

#[test]
fn shared_file_is_a_conflict() {
    let a = mod_file("a", "1.0.0", vec![], &["mod.toml", "sprite.png"]);
    let b = mod_file("b", "1.0.0", vec![], &["mod.toml", "sprite.png"]);
    match validate_active_mods(&vec![a, b]) {
        ModCheckResult::FileConflict(guid, mods, files) => {
            assert_eq!(guid, "b");
            assert_eq!(mods, vec!["a".to_string()]);
            assert_eq!(files, vec!["sprite.png".to_string()]);
        }
        _ => panic!("expected FileConflict"),
    }
}

#[test]
fn dependency_ancestry_excuses_conflict() {
    let a = mod_file("a", "1.0.0", vec![], &["mod.toml", "sprite.png"]);
    let b = mod_file("b", "1.0.0", vec![hard("a")], &["mod.toml", "sprite.png"]);
    assert!(matches!(validate_active_mods(&vec![a, b]), ModCheckResult::ModsOk()));
}

#[test]
fn soft_ancestry_also_excuses_conflict() {
    let a = mod_file("a", "1.0.0", vec![], &["mod.toml", "sprite.png"]);
    let b = mod_file("b", "1.0.0", vec![soft("a")], &["mod.toml", "sprite.png"]);
    assert!(matches!(validate_active_mods(&vec![a, b]), ModCheckResult::ModsOk()));
}

#[test]
fn conflicting_patches_are_reported() {
    let a = mod_file("a", "1.0.0", vec![], &["mod.toml", "patch.xdelta"]);
    let b = mod_file("b", "1.0.0", vec![], &["mod.toml", "patch.xdelta"]);
    match validate_active_mods(&vec![a, b]) {
        ModCheckResult::FileConflict(_, _, files) => {
            assert_eq!(files, vec!["patch.xdelta".to_string()]);
        }
        _ => panic!("expected FileConflict"),
    }
}

#[test]
fn manifest_entry_never_conflicts() {
    let a = mod_file("a", "1.0.0", vec![], &["mod.toml"]);
    let b = mod_file("b", "1.0.0", vec![], &["mod.toml"]);
    assert!(matches!(validate_active_mods(&vec![a, b]), ModCheckResult::ModsOk()));
}

#[test]
fn security_scan_accepts_plain_payload() {
    let entries = vec!["mod.toml".to_string(), "sprite.png".to_string()];
    assert!(check_mod_security(&entries).is_ok());
}

#[test]
fn patch_scan_collects_every_offender() {
    let entries = vec![
        "one.xdelta".to_string(),
        "patch.xdelta".to_string(),
        "two.xdelta".to_string(),
    ];
    let bad = check_patch_validity(&entries).unwrap_err();
    assert_eq!(bad, vec!["one.xdelta".to_string(), "two.xdelta".to_string()]);
}

#[test]
fn dependency_check_reports_each_missing_range() {
    let a = mod_file("a", "1.0.0", vec![], &["mod.toml"]);
    let depends = vec![hard("a"), hard("zzz"), soft("yyy")];
    let missing = check_mod_dependencies(&vec![a], &depends).unwrap_err();
    assert_eq!(missing, vec!["zzz *".to_string()]);
}

#[test]
fn verdict_messages_name_the_parties() {
    let insecure = ModCheckResult::ModInsecurity("a".to_string(), "bad payload".to_string());
    assert_eq!(
        insecure.describe(),
        "Mod security failure: bad payload\nCaused by: a"
    );

    let failed = ModCheckResult::FailedDependency(
        vec!["x *".to_string(), "y *".to_string()],
        vec!["a".to_string()],
    );
    assert_eq!(
        failed.describe(),
        "Missing dependencies: x *, y *\nRequired by: a"
    );

    let conflict = ModCheckResult::FileConflict(
        "b".to_string(),
        vec!["a".to_string()],
        vec!["sprite.png".to_string()],
    );
    assert_eq!(
        conflict.describe(),
        "Mod b is incompatible with a\nConflicting files: sprite.png"
    );

    let patch_conflict = ModCheckResult::FileConflict(
        "b".to_string(),
        vec!["a".to_string()],
        vec!["patch.xdelta".to_string()],
    );
    assert_eq!(
        patch_conflict.describe(),
        "Mod b is incompatible with a\nIncompatible patches"
    );

    assert_eq!(ModCheckResult::ModsOk().describe(), "");
}

#[test]
fn selection_with_bad_semantics_is_rejected_up_front() {
    let good = mod_file("a", "1.0.0", vec![], &["mod.toml"]);
    let bad = mod_file("b", "not-a-version", vec![], &["mod.toml"]);
    match validate_selection(&vec![good, bad]) {
        Err((index, _)) => assert_eq!(index, 1),
        Ok(_) => panic!("expected a semantics failure"),
    }
}

#[test]
fn selection_with_good_semantics_is_validated() {
    let a = mod_file("a", "1.0.0", vec![], &["mod.toml"]);
    match validate_selection(&vec![a]) {
        Ok(verdict) => assert!(matches!(verdict, ModCheckResult::ModsOk())),
        Err(_) => panic!("expected validation to run"),
    }
}
