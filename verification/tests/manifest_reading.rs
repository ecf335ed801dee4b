use modchain::mod_data::{ModDependencyEnum, ModFile};

#[test]
fn full_manifest_is_read() {
    let text = "manifest = 1\n\
                [metadata]\n\
                name = \"Example Mod\"\n\
                guid = \"example\"\n\
                author = \"someone\"\n\
                version = \"1.2.3\"\n\
                depends = [\"base:*\", { guid = \"lib\", version = \">=1.0\" }, { guid = \"skin\", version = \"*\", soft = true }]\n";
    let mf = ModFile::new("mods/example.zip".to_string(), text, vec!["mod.toml".to_string()])
        .unwrap();
    assert_eq!(mf.manifest, 1);
    assert_eq!(mf.metadata.name, "Example Mod");
    assert_eq!(mf.metadata.guid, "example");
    assert_eq!(mf.metadata.author, "someone");
    assert_eq!(mf.metadata.version, "1.2.3");
    assert_eq!(mf.filepath, "mods/example.zip");
    assert_eq!(mf.entries, vec!["mod.toml".to_string()]);
    assert_eq!(mf.metadata.depends.len(), 3);
    match &mf.metadata.depends[0] {
        ModDependencyEnum::ImplicitHard(s) => assert_eq!(s, "base:*"),
        _ => panic!("expected a compact reference"),
    }
    match &mf.metadata.depends[1] {
        ModDependencyEnum::DependTable(t) => {
            assert_eq!(t.guid, "lib");
            assert_eq!(t.version, ">=1.0");
            assert!(!t.soft);
        }
        _ => panic!("expected a table reference"),
    }
    match &mf.metadata.depends[2] {
        ModDependencyEnum::DependTable(t) => {
            assert_eq!(t.guid, "skin");
            assert!(t.soft);
        }
        _ => panic!("expected a table reference"),
    }
}

#[test]
fn manifest_without_depends_is_read() {
    let text = "manifest = 1\n\
                [metadata]\n\
                name = 'Plain'\n\
                guid = 'plain'\n\
                author = 'someone'\n\
                version = '0.1.0'\n";
    let mf = ModFile::parse_mod_metadata(text).unwrap();
    assert_eq!(mf.metadata.guid, "plain");
    assert!(mf.metadata.depends.is_empty());
    assert_eq!(mf.filepath, "");
    assert!(mf.entries.is_empty());
}

#[test]
fn escapes_in_strings_are_decoded() {
    let text = "manifest = 1\n\
                [metadata]\n\
                name = \"A \\\"B\\\" \\\\ C\"\n\
                guid = 'g'\n\
                author = 'x'\n\
                version = '1.0.0'\n";
    let mf = ModFile::parse_mod_metadata(text).unwrap();
    assert_eq!(mf.metadata.name, "A \"B\" \\ C");
}

#[test]
fn malformed_manifests_are_rejected() {
    assert!(ModFile::parse_mod_metadata("").is_err());
    assert!(ModFile::parse_mod_metadata("manifest = \n").is_err());
    let missing_guid = "manifest = 1\n[metadata]\nname = 'x'\n";
    assert!(ModFile::parse_mod_metadata(missing_guid).is_err());
    let unterminated = "manifest = 1\n\
                        [metadata]\n\
                        name = 'x\n\
                        guid = 'g'\n\
                        author = 'a'\n\
                        version = '1.0.0'\n";
    assert!(ModFile::parse_mod_metadata(unterminated).is_err());
}

#[test]
fn explicit_soft_false_is_read() {
    let text = "manifest = 1\n\
                [metadata]\n\
                name = 'x'\n\
                guid = 'g'\n\
                author = 'a'\n\
                version = '1.0.0'\n\
                depends = [{ guid = 'base', version = '*', soft = false }]\n";
    let mf = ModFile::parse_mod_metadata(text).unwrap();
    match &mf.metadata.depends[0] {
        ModDependencyEnum::DependTable(t) => assert!(!t.soft),
        _ => panic!("expected a table reference"),
    }
}

#[test]
fn oversized_format_number_is_rejected() {
    let text = "manifest = 99999999999\n\
                [metadata]\n\
                name = 'x'\n\
                guid = 'g'\n\
                author = 'a'\n\
                version = '1.0.0'\n";
    assert!(ModFile::parse_mod_metadata(text).is_err());
}

#[test]
fn invalid_semantics_reject_the_mod() {
    let bad_version = "manifest = 1\n\
                       [metadata]\n\
                       name = 'x'\n\
                       guid = 'g'\n\
                       author = 'a'\n\
                       version = 'latest'\n";
    assert!(ModFile::new("m.zip".to_string(), bad_version, vec![]).is_err());

    let bad_range = "manifest = 1\n\
                     [metadata]\n\
                     name = 'x'\n\
                     guid = 'g'\n\
                     author = 'a'\n\
                     version = '1.0.0'\n\
                     depends = ['other:not a range']\n";
    assert!(ModFile::new("m.zip".to_string(), bad_range, vec![]).is_err());
}
