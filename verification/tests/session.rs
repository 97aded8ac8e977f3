use std::path::PathBuf;

use code_profile_sync::app_config::{AppConfig, AppPaths, KnownEditor, PathEnv as AppEnv};
use code_profile_sync::cli::GlobalArgs;
use code_profile_sync::config::{Config, ProfileConfig};
use code_profile_sync::editor::paths::{PathEnv, Platform};
use code_profile_sync::editor::product::Product;
use code_profile_sync::editor::profiles::Profile;
use code_profile_sync::editor::Editor;
use code_profile_sync::collections::NameMap;
use code_profile_sync::fspath::FsPath;
use code_profile_sync::session::{
    apply_known_overrides, apply_overrides, choose_default_editor, close_step, config_path_for,
    discovery_outcome, editor_source, forget_profile, fresh_config, has_config, selector_outcome,
    SelectorMatch,
    inherited_resources, keeps_app_paths, make_ctx, match_discovered, probe_known,
    profile_actions, scoped_ctx, storage_paths_for, CloseStep, Discovery, EditorSource,
    ProfileAction, StoragePaths,
};
use code_profile_sync::snapshot::{ProfileSnapshot, Snapshot};

fn editor(short: &str, app: &str) -> Editor {
    let product = Product {
        name_short: short.to_owned(),
        name_long: short.to_owned(),
        application_name: app.to_owned(),
        data_folder_name: ".vscode-oss".to_owned(),
        quality: None,
        commit: None,
    };
    let vars = PathEnv { home: Some("/home/alice".to_owned()), ..PathEnv::default() };
    Editor::new(product, FsPath::from_text(app), vec![app.to_owned()], Platform::Linux, &vars).unwrap()
}

fn args() -> GlobalArgs {
    GlobalArgs {
        editor: None,
        config: None,
        app_dir: None,
        profile: Vec::new(),
        dry_run: false,
        yes: false,
        force: false,
        non_interactive: false,
        prefer: None,
    }
}

fn app_paths() -> AppPaths {
    AppPaths::resolve(Some(&FsPath::from_text("/state")), Platform::Linux, &AppEnv::default()).unwrap()
}

fn known(id: &str, aliases: &[&str], binary: Option<&str>) -> KnownEditor {
    KnownEditor {
        id: id.to_owned(),
        aliases: aliases.iter().map(|a| (*a).to_owned()).collect(),
        binary: binary.map(FsPath::from_text),
        user_dir: None,
        extensions_dir: None,
    }
}

#[test]
fn state_lives_next_to_an_explicit_config() {
    let e = editor("VSCodium", "codium");
    let mut g = args();
    g.config = Some(FsPath::from_text("/repo/vscodium.toml"));
    assert!(!keeps_app_paths(&g));
    assert_eq!(
        config_path_for(&g, &app_paths(), &e).to_path_buf(),
        PathBuf::from("/repo/vscodium.toml")
    );
    let s = storage_paths_for(&g, &app_paths(), &e, &FsPath::from_text("/repo"));
    assert_eq!(
        s.snapshot_path.to_path_buf(),
        PathBuf::from("/repo/.code-pm/snapshots/vscodium.snapshot.json")
    );
    assert_eq!(s.vendor_dir.to_path_buf(), PathBuf::from("/repo/.code-pm/vendor/extensions"));
    assert_eq!(s.backup_dir.parts.len(), 4);

    g.app_dir = Some(FsPath::from_text("/state"));
    assert!(keeps_app_paths(&g));
    let s = storage_paths_for(&g, &app_paths(), &e, &FsPath::from_text("/repo"));
    assert_eq!(
        s.snapshot_path.to_path_buf(),
        PathBuf::from("/state/snapshots/vscodium.snapshot.json")
    );
    let s = StoragePaths::for_app(&app_paths(), &e);
    assert_eq!(s.vendor_dir.to_path_buf(), PathBuf::from("/state/vendor/extensions"));
    assert_eq!(
        config_path_for(&args(), &app_paths(), &e).to_path_buf(),
        PathBuf::from("/state/editors/vscodium.toml")
    );
}

#[test]
fn config_overrides_replace_editor_paths() {
    let mut config = Config::default();
    config.editor.binary = Some(FsPath::from_text("/opt/codium"));
    config.editor.user_dir = Some(FsPath::from_text("/portable/User"));
    let e = apply_overrides(editor("VSCodium", "codium"), Some(&config));
    assert_eq!(e.launcher.to_path_buf(), PathBuf::from("/opt/codium"));
    assert_eq!(e.user_dir.to_path_buf(), PathBuf::from("/portable/User"));
    assert_eq!(
        e.extensions_dir.to_path_buf(),
        PathBuf::from("/home/alice/.vscode-oss/extensions")
    );
    let same = apply_overrides(editor("VSCodium", "codium"), None);
    assert_eq!(same.launcher.to_path_buf(), PathBuf::from("codium"));
}

#[test]
fn known_overrides_take_the_launcher_only_for_the_same_editor() {
    let mut k = known("VSCodium", &[], Some("/opt/codium"));
    k.extensions_dir = Some(FsPath::from_text("/x"));
    let mut e = editor("VSCodium", "codium");
    apply_known_overrides(&mut e, &k, Some("Cursor"));
    assert_eq!(e.launcher.to_path_buf(), PathBuf::from("codium"));
    assert_eq!(e.extensions_dir.to_path_buf(), PathBuf::from("/x"));
    apply_known_overrides(&mut e, &k, Some("vscodium"));
    assert_eq!(e.launcher.to_path_buf(), PathBuf::from("/opt/codium"));
}

#[test]
fn editor_source_follows_precedence() {
    let mut app = AppConfig::default();
    let mut config = Config::default();
    assert!(matches!(editor_source(&args(), None, &app), EditorSource::Discover));
    app.default_editor = Some("VSCodium".to_owned());
    assert!(matches!(editor_source(&args(), None, &app), EditorSource::Remembered(ref s) if s == "VSCodium"));
    config.editor.name = Some("Cursor".to_owned());
    assert!(matches!(editor_source(&args(), Some(&config), &app), EditorSource::Named(ref s) if s == "Cursor"));
    config.editor.binary = Some(FsPath::from_text("/bin/cursor"));
    assert!(matches!(editor_source(&args(), Some(&config), &app), EditorSource::Binary(_)));
    let mut g = args();
    g.editor = Some("code-oss".to_owned());
    assert!(matches!(editor_source(&g, Some(&config), &app), EditorSource::Selector(ref s) if s == "code-oss"));
}

#[test]
fn discovery_outcomes() {
    assert_eq!(discovery_outcome(0, false), Discovery::NoneFound);
    assert_eq!(discovery_outcome(1, true), Discovery::Single);
    assert_eq!(discovery_outcome(2, true), Discovery::Refuse);
    assert_eq!(discovery_outcome(3, false), Discovery::Ask);
}

#[test]
fn selectors_pick_discovered_and_remembered_editors() {
    let found = vec![editor("VSCodium", "codium"), editor("Code - OSS", "code-oss")];
    let remembered = vec![
        known("Cursor", &["work"], Some("/opt/cursor")),
        known("Code - OSS", &["work", "oss"], None),
    ];
    assert_eq!(match_discovered(&found, &remembered, "codium"), vec![(0, None)]);
    assert_eq!(match_discovered(&found, &remembered, "work"), vec![(1, Some(1))]);
    assert_eq!(match_discovered(&found, &remembered, "nothing"), Vec::new());
    assert!(probe_known(&remembered[0], "work", &Vec::new()));
    assert!(!probe_known(&remembered[0], "work", &vec!["Cursor".to_owned()]));
    assert!(!probe_known(&remembered[1], "work", &Vec::new()));
}

#[test]
fn closing_the_editor_before_writing() {
    let mut g = args();
    assert_eq!(close_step(&g, false, None), CloseStep::Proceed);
    assert_eq!(close_step(&g, true, None), CloseStep::Ask);
    assert_eq!(close_step(&g, true, Some(false)), CloseStep::Abort);
    assert_eq!(close_step(&g, true, Some(true)), CloseStep::Recheck);
    g.non_interactive = true;
    assert_eq!(close_step(&g, true, None), CloseStep::Refuse);
    g.force = true;
    assert_eq!(close_step(&g, true, None), CloseStep::Proceed);
}

#[test]
fn profile_menu_and_deletion() {
    assert_eq!(
        profile_actions("Default"),
        vec![ProfileAction::Status, ProfileAction::Sync, ProfileAction::Push, ProfileAction::Pull]
    );
    assert_eq!(profile_actions("Rust").last(), Some(&ProfileAction::Delete));

    let mut config = Config::default();
    config.profiles.insert("Rust".to_owned(), ProfileConfig::default());
    let mut snapshot = Snapshot::default();
    snapshot.profiles.insert("Rust".to_owned(), ProfileSnapshot::default());
    assert!(has_config(&config, false));
    assert!(forget_profile(&mut config, &mut snapshot, "Rust"));
    assert!(!has_config(&config, false));
    assert!(has_config(&config, true));
    assert!(snapshot.profile("Rust").is_none());
    assert!(!forget_profile(&mut config, &mut snapshot, "Rust"));
}

#[test]
fn session_bookkeeping() {
    let e = editor("VSCodium", "codium");
    let mut app = AppConfig::default();
    choose_default_editor(&mut app, &e);
    assert_eq!(app.default_editor.as_deref(), Some("VSCodium"));
    choose_default_editor(&mut app, &editor("Cursor", "cursor"));
    assert_eq!(app.default_editor.as_deref(), Some("VSCodium"));

    let config = fresh_config(&e);
    assert_eq!(config.editor.name.as_deref(), Some("VSCodium"));
    assert_eq!(config.profiles.len(), 0);

    let mut flags = NameMap::new();
    flags.insert("snippets".to_owned(), true);
    flags.insert("keybindings".to_owned(), true);
    flags.insert("settings".to_owned(), false);
    let p = Profile { name: "P".to_owned(), location: None, icon: None, use_default: flags };
    assert_eq!(inherited_resources(&p), vec!["keybindings".to_owned(), "snippets".to_owned()]);
}

#[test]
fn contexts_carry_the_options() {
    let e = editor("VSCodium", "codium");
    let mut g = args();
    g.dry_run = true;
    g.profile = vec!["rust".to_owned(), "Web".to_owned()];
    let ctx = make_ctx(&e, &g, FsPath::from_text("/b"), FsPath::from_text("/v"));
    assert!(ctx.dry_run);
    assert!(ctx.wants("Rust"));
    assert!(ctx.wants("WEB"));
    assert!(!ctx.wants("Python"));
    let scoped = scoped_ctx(&e, &args(), FsPath::from_text("/b"), FsPath::from_text("/v"), "Rust");
    assert!(scoped.wants("rust"));
    assert!(!scoped.wants("Web"));
    let all = make_ctx(&e, &args(), FsPath::from_text("/b"), FsPath::from_text("/v"));
    assert!(all.wants("anything"));
}

#[test]
fn selector_matches_settle_by_count() {
    assert!(matches!(selector_outcome(&vec![]), SelectorMatch::NoMatch));
    assert!(matches!(selector_outcome(&vec!["VSCodium".to_owned()]), SelectorMatch::Single));
    match selector_outcome(&vec!["VSCodium".to_owned(), "Code - OSS".to_owned(), "Cursor".to_owned()]) {
        SelectorMatch::Ambiguous(names) => assert_eq!(names, "VSCodium, Code - OSS, Cursor"),
        _ => panic!("expected an ambiguous match"),
    }
}
