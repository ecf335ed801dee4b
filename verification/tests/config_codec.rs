use modchain::config::{AppConfig, DataWinConfig, DirsConfig};

fn sample_config() -> AppConfig {
    AppConfig {
        data_win: DataWinConfig {
            game_root: "C:\\Games\\ZeroRanger".to_string(),
            active_mods: vec!["alpha".to_string(), "beta".to_string()],
            replaced_files: vec!["data.win".to_string(), "snd/boss.ogg".to_string()],
        },
        filepath: "cfg/config.toml".to_string(),
    }
}

#[test]
fn serialized_form_is_canonical() {
    let text = sample_config().to_toml();
    assert_eq!(
        text,
        "[data_win]\n\
         game_root = 'C:\\Games\\ZeroRanger'\n\
         active_mods = ['alpha', 'beta']\n\
         replaced_files = ['data.win', 'snd/boss.ogg']\n"
    );
}

#[test]
fn config_round_trips() {
    let cfg = sample_config();
    let parsed = AppConfig::from_toml(cfg.to_toml().as_str()).unwrap();
    assert_eq!(parsed.data_win.game_root, cfg.data_win.game_root);
    assert_eq!(parsed.data_win.active_mods, cfg.data_win.active_mods);
    assert_eq!(parsed.data_win.replaced_files, cfg.data_win.replaced_files);
    assert_eq!(parsed.filepath, "");
}

#[test]
fn empty_lists_round_trip() {
    let cfg = AppConfig {
        data_win: DataWinConfig {
            game_root: "D:/zr".to_string(),
            active_mods: vec![],
            replaced_files: vec![],
        },
        filepath: String::new(),
    };
    let text = cfg.to_toml();
    assert_eq!(
        text,
        "[data_win]\ngame_root = 'D:/zr'\nactive_mods = []\nreplaced_files = []\n"
    );
    let parsed = AppConfig::from_toml(text.as_str()).unwrap();
    assert!(parsed.data_win.active_mods.is_empty());
    assert!(parsed.data_win.replaced_files.is_empty());
}

#[test]
fn malformed_documents_are_rejected() {
    assert!(AppConfig::from_toml("").is_none());
    assert!(AppConfig::from_toml("[data_win]\n").is_none());
    assert!(AppConfig::from_toml("[data_win]\ngame_root = 'x'\n").is_none());
    // trailing content after the document
    let mut text = sample_config().to_toml();
    text.push_str("extra = 1\n");
    assert!(AppConfig::from_toml(text.as_str()).is_none());
}

#[test]
fn new_without_a_file_takes_the_default() {
    let cfg = AppConfig::new("cfg/config.toml".to_string(), None);
    assert_eq!(
        cfg.data_win.game_root,
        "C:\\Program Files (x86)\\Steam\\steamapps\\common\\ZeroRanger"
    );
    assert!(cfg.data_win.active_mods.is_empty());
    assert!(cfg.data_win.replaced_files.is_empty());
    assert_eq!(cfg.filepath, "cfg/config.toml");
}

#[test]
fn new_with_a_bad_file_falls_back_to_the_default() {
    let cfg = AppConfig::new("cfg/config.toml".to_string(), Some("not a config"));
    assert_eq!(
        cfg.data_win.game_root,
        "C:\\Program Files (x86)\\Steam\\steamapps\\common\\ZeroRanger"
    );
    assert_eq!(cfg.filepath, "cfg/config.toml");
}

#[test]
fn new_with_a_good_file_takes_its_contents() {
    let text = sample_config().to_toml();
    let cfg = AppConfig::new("elsewhere.toml".to_string(), Some(text.as_str()));
    assert_eq!(cfg.data_win.game_root, "C:\\Games\\ZeroRanger");
    assert_eq!(cfg.filepath, "elsewhere.toml");
}

#[test]
fn dirs_config_round_trips() {
    let dirs = DirsConfig {
        appdata: "C:\\Users\\someone\\AppData\\Roaming\\NirvanaMM".to_string(),
    };
    let text = dirs.to_toml();
    assert_eq!(
        text,
        "appdata = 'C:\\Users\\someone\\AppData\\Roaming\\NirvanaMM'\n"
    );
    let parsed = DirsConfig::from_toml(text.as_str()).unwrap();
    assert_eq!(parsed.appdata, dirs.appdata);
}

#[test]
fn dirs_config_rejects_malformed_documents() {
    assert!(DirsConfig::from_toml("appdata = ").is_none());
    assert!(DirsConfig::from_toml("somewhere = 'x'\n").is_none());
}
