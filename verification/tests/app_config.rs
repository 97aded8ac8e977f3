use std::path::PathBuf;

use code_profile_sync::app_config::{
    default_app_home_for, identifiers_match, normalize_identifier, safe_id, AppConfig, AppPaths,
    KnownEditor, PathEnv, APP_DIR_NAME,
};
use code_profile_sync::editor::paths::{EnvVar, PathEnv as EditorEnv, Platform};
use code_profile_sync::editor::product::Product;
use code_profile_sync::editor::Editor;
use code_profile_sync::fspath::FsPath;

fn vscodium() -> Editor {
    let product = Product {
        name_short: "VSCodium".to_owned(),
        name_long: "VSCodium".to_owned(),
        application_name: "codium".to_owned(),
        data_folder_name: ".vscode-oss".to_owned(),
        quality: Some("stable".to_owned()),
        commit: Some("abc123".to_owned()),
    };
    let vars = EditorEnv {
        home: Some("/home/alice".to_owned()),
        ..EditorEnv::default()
    };
    Editor::new(
        product,
        FsPath::from_text("/usr/bin/codium"),
        vec!["codium".to_owned()],
        Platform::Linux,
        &vars,
    )
    .unwrap()
}

#[test]
fn derives_linux_app_home_from_xdg_config_home() -> Result<(), EnvVar> {
    let vars = PathEnv {
        xdg_config_home: Some("/xdg/config".to_owned()),
        ..PathEnv::default()
    };

    assert_eq!(
        default_app_home_for(Platform::Linux, &vars)?.to_path_buf(),
        PathBuf::from("/xdg/config").join(APP_DIR_NAME)
    );
    Ok(())
}

#[test]
fn derives_linux_app_home_from_home_fallback() -> Result<(), EnvVar> {
    let vars = PathEnv {
        home: Some("/home/alice".to_owned()),
        xdg_config_home: Some(String::new()),
        ..PathEnv::default()
    };

    assert_eq!(
        default_app_home_for(Platform::Linux, &vars)?.to_path_buf(),
        PathBuf::from("/home/alice").join(".config").join(APP_DIR_NAME)
    );
    Ok(())
}

#[test]
fn derives_macos_app_home_from_home() -> Result<(), EnvVar> {
    let vars = PathEnv {
        home: Some("/Users/alice".to_owned()),
        ..PathEnv::default()
    };

    assert_eq!(
        default_app_home_for(Platform::Macos, &vars)?.to_path_buf(),
        PathBuf::from("/Users/alice")
            .join("Library")
            .join("Application Support")
            .join(APP_DIR_NAME)
    );
    Ok(())
}

#[test]
fn derives_windows_app_home_from_local_appdata() -> Result<(), EnvVar> {
    let vars = PathEnv {
        local_appdata: Some(r"C:\Users\alice\AppData\Local".to_owned()),
        ..PathEnv::default()
    };

    assert_eq!(
        default_app_home_for(Platform::Windows, &vars)?.to_path_buf(),
        PathBuf::from(r"C:\Users\alice\AppData\Local").join(APP_DIR_NAME)
    );
    Ok(())
}

#[test]
fn matches_aliases_with_normalized_punctuation() {
    assert!(identifiers_match("Code - OSS", "codeoss"));
    assert!(identifiers_match("code-oss", "CODE OSS"));
    assert!(!identifiers_match("codium", "cursor"));
}

#[test]
fn app_home_reports_the_missing_variable() {
    let vars = PathEnv::default();
    assert_eq!(default_app_home_for(Platform::Linux, &vars).err(), Some(EnvVar::Home));
    assert_eq!(default_app_home_for(Platform::Macos, &vars).err(), Some(EnvVar::Home));
    assert_eq!(
        default_app_home_for(Platform::Windows, &vars).err(),
        Some(EnvVar::LocalAppData)
    );
}

#[test]
fn identifiers_match_ignoring_case_and_punctuation() {
    assert!(identifiers_match("VSCodium", "vscodium"));
    assert!(identifiers_match("Code - OSS", "code_oss"));
    assert!(!identifiers_match("code", "codium"));
    assert_eq!(normalize_identifier("Code - OSS"), "codeoss");
    assert_eq!(normalize_identifier("--"), "");
}

#[test]
fn safe_id_keeps_a_readable_file_name() {
    assert_eq!(safe_id("Code - OSS"), "code-oss");
    assert_eq!(safe_id("VSCodium"), "vscodium");
    assert_eq!(safe_id("  My  Editor!! "), "my-editor");
    assert_eq!(safe_id("a.b_c"), "a-b-c");
}

#[test]
fn app_paths_lay_out_the_app_home() -> Result<(), EnvVar> {
    let root = FsPath::from_text("/state");
    let paths = AppPaths::resolve(Some(&root), Platform::Linux, &PathEnv::default())?;
    let editor = vscodium();
    assert_eq!(paths.config.to_path_buf(), PathBuf::from("/state/config.toml"));
    assert_eq!(
        paths.vendor_dir.to_path_buf(),
        PathBuf::from("/state").join("vendor").join("extensions")
    );
    assert_eq!(
        paths.editor_config_path(&editor).to_path_buf(),
        PathBuf::from("/state/editors/vscodium.toml")
    );
    assert_eq!(
        paths.snapshot_path(&editor).to_path_buf(),
        PathBuf::from("/state/snapshots/vscodium.snapshot.json")
    );
    let backup = paths.backup_dir();
    assert_eq!(backup.parts.len(), 3);
    assert!(backup.parts[2].chars().all(|c| c.is_ascii_digit()));
    Ok(())
}

#[test]
fn upsert_editor_adds_then_merges() {
    let editor = vscodium();
    let mut config = AppConfig::default();
    config.upsert_editor(&editor);
    assert_eq!(config.editors.len(), 1);
    assert_eq!(config.editors[0].id, "VSCodium");
    assert_eq!(config.editors[0].aliases, vec!["VSCodium".to_owned(), "codium".to_owned()]);

    let mut moved = vscodium();
    moved.launcher = FsPath::from_text("/opt/codium/bin/codium");
    moved.launcher_aliases = vec!["vscodium".to_owned(), "codium-insiders".to_owned()];
    config.upsert_editor(&moved);
    assert_eq!(config.editors.len(), 1);
    assert_eq!(
        config.editors[0].aliases,
        vec!["VSCodium".to_owned(), "codium".to_owned(), "codium-insiders".to_owned()]
    );
    assert_eq!(
        config.editors[0].binary.as_ref().map(FsPath::to_path_buf),
        Some(PathBuf::from("/opt/codium/bin/codium"))
    );
    assert!(config.default_editor.is_none());
}

#[test]
fn known_editor_matches_id_and_aliases() {
    let known = KnownEditor {
        id: "Code - OSS".to_owned(),
        aliases: vec!["code-oss".to_owned(), "oss".to_owned()],
        binary: None,
        user_dir: None,
        extensions_dir: None,
    };
    assert!(known.matches("codeoss"));
    assert!(known.matches("OSS"));
    assert!(!known.matches("codium"));
}

#[test]
fn safe_ids_are_safe_file_names() {
    for input in ["--Weird__Name--", "ÄÖÜ", "a  b", "", "x.y.z", "UPPER-case 9"] {
        let id = safe_id(input);
        assert!(id.chars().all(|c| c.is_ascii_lowercase() || c.is_ascii_digit() || c == '-'));
        assert!(!id.starts_with('-') && !id.ends_with('-'));
        assert!(!id.contains("--"));
    }
    assert_eq!(safe_id("--Weird__Name--"), "weird-name");
    assert_eq!(safe_id("ÄÖÜ"), "");
    assert_eq!(safe_id("UPPER-case 9"), "upper-case-9");
}

#[test]
fn safe_id_is_idempotent() {
    for v in ["Code - OSS", "  VSCodium!! Insiders ", "--a--b--", "", "code-oss"] {
        let once = safe_id(v);
        assert_eq!(safe_id(&once), once);
    }
    assert_eq!(safe_id("Code - OSS"), "code-oss");
}

#[test]
fn upserting_twice_records_the_same_as_once() {
    let editor = vscodium();
    let mut config = AppConfig::default();
    config.upsert_editor(&editor);
    let once: Vec<(String, Vec<String>)> =
        config.editors.iter().map(|e| (e.id.clone(), e.aliases.clone())).collect();
    config.upsert_editor(&editor);
    let twice: Vec<(String, Vec<String>)> =
        config.editors.iter().map(|e| (e.id.clone(), e.aliases.clone())).collect();
    assert_eq!(once, twice);
    assert_eq!(
        config.editors[0].binary.as_ref().map(FsPath::to_path_buf),
        Some(editor.launcher.to_path_buf())
    );
}
