use modchain::apply::{apply_failure_message, plan_application, ApplyStep, PlanOutcome};
use modchain::config::{AppConfig, DataWinConfig};
use modchain::mod_data::{ModDependencyEnum, ModFile, ModMetaData};
use modchain::origin::{dir_removal_allowed, finish_purge, finish_reset, purge_gate, reset_plan, ResetAction};

fn mod_file(guid: &str, depends: Vec<ModDependencyEnum>, entries: &[&str]) -> ModFile {
    ModFile {
        manifest: 1,
        metadata: ModMetaData {
            name: guid.to_uppercase(),
            guid: guid.to_string(),
            author: "author".to_string(),
            version: "1.0.0".to_string(),
            depends,
        },
        filepath: format!("mods/{}.zip", guid),
        entries: entries.iter().map(|e| e.to_string()).collect(),
    }
}

fn config(replaced: &[&str]) -> AppConfig {
    AppConfig {
        data_win: DataWinConfig {
            game_root: "root".to_string(),
            active_mods: vec!["a".to_string()],
            replaced_files: replaced.iter().map(|e| e.to_string()).collect(),
        },
        filepath: "config.toml".to_string(),
    }
}

#[test]
fn extraction_plan_extracts_and_patches() {
    let m = mod_file("a", vec![], &["mod.toml", "sprite.png", "patch.xdelta"]);
    let mut replaced: Vec<String> = Vec::new();
    let steps = m.extraction_plan("root", "tmp", &mut replaced);
    assert_eq!(replaced, vec!["sprite.png".to_string(), "data.win".to_string()]);
    assert_eq!(steps.len(), 4);
    match &steps[0] {
        ApplyStep::ExtractEntry { entry, dest } => {
            assert_eq!(entry, "sprite.png");
            assert_eq!(dest, "root/sprite.png");
        }
        _ => panic!("expected ExtractEntry"),
    }
    match &steps[1] {
        ApplyStep::ExtractEntry { entry, dest } => {
            assert_eq!(entry, "patch.xdelta");
            assert_eq!(dest, "tmp/patch.xdelta");
        }
        _ => panic!("expected ExtractEntry"),
    }
    match &steps[2] {
        ApplyStep::StageBinary { from, to } => {
            assert_eq!(from, "root/data.win");
            assert_eq!(to, "tmp/data.win");
        }
        _ => panic!("expected StageBinary"),
    }
    match &steps[3] {
        ApplyStep::DecodeDelta { source, patch, target } => {
            assert_eq!(source, "tmp/data.win");
            assert_eq!(patch, "tmp/patch.xdelta");
            assert_eq!(target, "root/data.win");
        }
        _ => panic!("expected DecodeDelta"),
    }
}

#[test]
fn replaced_files_are_recorded_once() {
    let a = mod_file("a", vec![], &["mod.toml", "sprite.png", "patch.xdelta"]);
    let b = mod_file("b", vec![], &["mod.toml", "sprite.png", "patch.xdelta"]);
    let mut replaced: Vec<String> = Vec::new();
    let _ = a.extraction_plan("root", "tmp", &mut replaced);
    let _ = b.extraction_plan("root", "tmp", &mut replaced);
    assert_eq!(replaced, vec!["sprite.png".to_string(), "data.win".to_string()]);
}

#[test]
fn manifest_is_not_extracted() {
    let m = mod_file("a", vec![], &["mod.toml"]);
    let mut replaced: Vec<String> = Vec::new();
    let steps = m.extraction_plan("root", "tmp", &mut replaced);
    assert!(steps.is_empty());
    assert!(replaced.is_empty());
}

#[test]
fn reset_plan_restores_or_deletes() {
    let cfg = config(&["a.png", "gone.png", "data.win"]);
    let origin_entries = vec!["a.png".to_string(), "data.win".to_string()];
    let plan = reset_plan(&cfg, &origin_entries);
    assert_eq!(plan.len(), 3);
    match &plan[0] {
        ResetAction::Restore(p) => assert_eq!(p, "a.png"),
        _ => panic!("expected Restore"),
    }
    match &plan[1] {
        ResetAction::Delete(p) => assert_eq!(p, "gone.png"),
        _ => panic!("expected Delete"),
    }
    match &plan[2] {
        ResetAction::Restore(p) => assert_eq!(p, "data.win"),
        _ => panic!("expected Restore"),
    }
}

#[test]
fn reset_twice_is_a_no_op() {
    let mut cfg = config(&["a.png"]);
    let origin_entries = vec!["a.png".to_string()];
    let first = reset_plan(&cfg, &origin_entries);
    assert_eq!(first.len(), 1);
    finish_reset(&mut cfg);
    assert!(cfg.data_win.replaced_files.is_empty());

    // the second pass, on the already-empty list, plans nothing and changes
    // nothing
    let second = reset_plan(&cfg, &origin_entries);
    assert!(second.is_empty());
    finish_reset(&mut cfg);
    assert!(cfg.data_win.replaced_files.is_empty());
    assert_eq!(cfg.data_win.game_root, "root");
    assert_eq!(cfg.data_win.active_mods, vec!["a".to_string()]);
    assert_eq!(cfg.filepath, "config.toml");
}

#[test]
fn empty_leftover_directories_follow_the_origin() {
    let origin_entries = vec!["kept/".to_string(), "kept/a.png".to_string()];
    assert!(!dir_removal_allowed(&"kept/".to_string(), &origin_entries));
    assert!(dir_removal_allowed(&"made-by-a-mod/".to_string(), &origin_entries));
}

#[test]
fn purge_requires_an_origin() {
    match purge_gate(false) {
        Err(msg) => assert_eq!(msg, "Origin not initialized"),
        Ok(()) => panic!("expected purge to be refused"),
    }
    assert!(purge_gate(true).is_ok());
}

#[test]
fn purge_clears_the_selection() {
    let mut cfg = config(&[]);
    finish_purge(&mut cfg);
    assert!(cfg.data_win.active_mods.is_empty());
    assert_eq!(cfg.data_win.game_root, "root");
}

#[test]
fn failure_mid_chain_names_the_mod() {
    let guid = "c".to_string();
    let msg = "Failed to patch".to_string();
    let (blamed, text) = apply_failure_message(&guid, &msg, &Ok(()));
    assert_eq!(blamed, Some("c".to_string()));
    assert_eq!(text, "Failed to patch");

    let (blamed, text) =
        apply_failure_message(&guid, &msg, &Err("origin.zip is corrupt".to_string()));
    assert_eq!(blamed, Some("c".to_string()));
    assert_eq!(
        text,
        "Failed to patch\nFailed to reset origin: origin.zip is corrupt"
    );
}

#[test]
fn planning_validates_then_orders() {
    let a = mod_file("a", vec![], &["mod.toml"]);
    let b = mod_file(
        "b",
        vec![ModDependencyEnum::ImplicitHard("a:*".to_string())],
        &["mod.toml"],
    );
    match plan_application(&vec![b, a]) {
        PlanOutcome::Chain(chain) => {
            let names: Vec<String> = chain.iter().map(|m| m.metadata.guid.clone()).collect();
            assert_eq!(names, vec!["a".to_string(), "b".to_string()]);
        }
        _ => panic!("expected a chain"),
    }
}

#[test]
fn planning_rejects_an_invalid_selection() {
    let a = mod_file("a", vec![], &["mod.toml", "virus.exe"]);
    match plan_application(&vec![a]) {
        PlanOutcome::Rejected(_) => {}
        _ => panic!("expected the selection to be rejected"),
    }
    let bad = ModFile {
        metadata: ModMetaData {
            version: "not-semantic".to_string(),
            name: "B".to_string(),
            guid: "b".to_string(),
            author: "x".to_string(),
            depends: vec![],
        },
        manifest: 1,
        filepath: "b.zip".to_string(),
        entries: vec![],
    };
    match plan_application(&vec![bad]) {
        PlanOutcome::BadMetadata(index, _) => assert_eq!(index, 0),
        _ => panic!("expected bad metadata"),
    }
}
