use std::path::PathBuf;

use code_profile_sync::collections::NameMap;
use code_profile_sync::editor::discover::{
    add_discovered, discover, from_path, launcher_names, name_variants, product_json_candidates,
    system_prefixes, Probe,
};
use code_profile_sync::editor::paths::{EnvVar, PathEnv, Platform};
use code_profile_sync::editor::product::Product;
use code_profile_sync::editor::profiles::{
    generate_location, location_in_use, new_profile, read_all, registry_field, registry_with,
    Profile, RegistryField, StoredProfile,
};
use code_profile_sync::json::{json_eq, JsonValue};
use code_profile_sync::editor::Editor;
use code_profile_sync::fspath::FsPath;

fn product(short: &str, app: &str) -> Product {
    Product {
        name_short: short.to_owned(),
        name_long: short.to_owned(),
        application_name: app.to_owned(),
        data_folder_name: ".vscode-oss".to_owned(),
        quality: Some("stable".to_owned()),
        commit: Some("abc123".to_owned()),
    }
}

fn home() -> PathEnv {
    PathEnv {
        home: Some("/home/alice".to_owned()),
        ..PathEnv::default()
    }
}

fn editor() -> Editor {
    Editor::new(
        product("VSCodium", "codium"),
        FsPath::from_text("/usr/bin/codium"),
        vec!["codium".to_owned(), "vscodium".to_owned()],
        Platform::Linux,
        &home(),
    )
    .unwrap()
}

fn stored(name: &str, location: &str) -> StoredProfile {
    StoredProfile {
        name: name.to_owned(),
        location: location.to_owned(),
        icon: None,
        use_default_flags: None,
    }
}

#[test]
fn editor_paths_and_aliases() {
    let e = editor();
    assert_eq!(e.id(), "VSCodium");
    assert_eq!(
        e.user_dir.to_path_buf(),
        PathBuf::from("/home/alice/.config/VSCodium/User")
    );
    assert_eq!(
        e.storage_json().to_path_buf(),
        PathBuf::from("/home/alice/.config/VSCodium/User/globalStorage/storage.json")
    );
    assert_eq!(
        e.profile_dir("-rust").to_path_buf(),
        PathBuf::from("/home/alice/.config/VSCodium/User/profiles/-rust")
    );
    assert_eq!(e.aliases(), vec!["VSCodium".to_owned(), "codium".to_owned()]);
    assert!(e.matches("vs-codium"));
    assert!(e.matches("CODIUM"));
    assert!(!e.matches("cursor"));
}

#[test]
fn editor_new_reports_a_missing_home() {
    let r = Editor::new(
        product("VSCodium", "codium"),
        FsPath::from_text("codium"),
        Vec::new(),
        Platform::Macos,
        &PathEnv::default(),
    );
    assert_eq!(r.err(), Some(EnvVar::Home));
}

#[test]
fn profile_paths_depend_on_the_location() {
    let e = editor();
    let profiles = read_all(vec![stored("Rust", "-rust")]);
    assert_eq!(profiles.len(), 2);
    let default = &profiles[0];
    assert!(default.is_default());
    assert_eq!(default.name, "Default");
    assert_eq!(default.cli_profile(), None);
    assert_eq!(
        default.settings_path(&e).to_path_buf(),
        PathBuf::from("/home/alice/.config/VSCodium/User/settings.json")
    );
    assert_eq!(
        default.extensions_path(&e).to_path_buf(),
        PathBuf::from("/home/alice/.vscode-oss/extensions/extensions.json")
    );
    let rust = &profiles[1];
    assert_eq!(rust.cli_profile(), Some("Rust"));
    assert_eq!(
        rust.settings_path(&e).to_path_buf(),
        PathBuf::from("/home/alice/.config/VSCodium/User/profiles/-rust/settings.json")
    );
    assert_eq!(
        rust.extensions_path(&e).to_path_buf(),
        PathBuf::from("/home/alice/.config/VSCodium/User/profiles/-rust/extensions.json")
    );
}

#[test]
fn inherits_reads_use_default_flags() {
    let mut flags = NameMap::new();
    flags.insert("settings".to_owned(), true);
    flags.insert("keybindings".to_owned(), false);
    let p = Profile {
        name: "P".to_owned(),
        location: Some("p".to_owned()),
        icon: None,
        use_default: flags,
    };
    assert!(p.inherits("settings"));
    assert!(!p.inherits("keybindings"));
    assert!(!p.inherits("extensions"));
}

#[test]
fn new_locations_are_eight_hex_digits_and_unused() {
    let existing = vec![stored("A", "00000000")];
    let loc = generate_location("Rust", &existing, 12345);
    assert_eq!(loc.len(), 8);
    assert!(loc.chars().all(|c| c.is_ascii_hexdigit() && !c.is_ascii_uppercase()));
    assert!(!location_in_use(&existing, &loc));
    assert!(location_in_use(&existing, "00000000"));
    assert_eq!(generate_location("Rust", &existing, 12345), loc);
}

#[test]
fn new_profile_records_the_flags_only_when_set() {
    let (profile, entry) = new_profile("Web", Some("globe"), &NameMap::new(), &Vec::new());
    assert_eq!(profile.name, "Web");
    assert_eq!(profile.location.as_deref(), Some(entry.location.as_str()));
    assert_eq!(entry.icon.as_deref(), Some("globe"));
    assert!(entry.use_default_flags.is_none());

    let mut flags = NameMap::new();
    flags.insert("extensions".to_owned(), true);
    let (profile, entry) = new_profile("Web", None, &flags, &Vec::new());
    assert!(profile.inherits("extensions"));
    assert!(profile.icon.is_none());
    assert_eq!(entry.use_default_flags.map(|f| f.len()), Some(1));
}

#[test]
fn discovery_names() {
    assert_eq!(launcher_names()[0], "code-oss");
    assert_eq!(launcher_names().len(), 6);
    assert_eq!(system_prefixes()[2], "/opt");
    assert_eq!(
        name_variants("code-oss"),
        vec!["code-oss".to_owned(), "code".to_owned()]
    );
    assert_eq!(
        name_variants("code-insiders"),
        vec!["code-insiders".to_owned(), "code".to_owned()]
    );
    assert_eq!(name_variants("codium"), vec!["codium".to_owned()]);
    let candidates = product_json_candidates(&FsPath::from_text("/opt/vscodium"));
    assert_eq!(
        candidates[1].to_path_buf(),
        PathBuf::from("/opt/vscodium/resources/app/product.json")
    );
}

#[test]
fn discovery_keeps_one_editor_per_product() {
    let probes = vec![
        Probe {
            name: "code-oss".to_owned(),
            launcher: FsPath::from_text("/usr/bin/code-oss"),
            product: product("Code - OSS", "code-oss"),
        },
        Probe {
            name: "codium".to_owned(),
            launcher: FsPath::from_text("/usr/bin/codium"),
            product: product("VSCodium", "codium"),
        },
        Probe {
            name: "vscodium".to_owned(),
            launcher: FsPath::from_text("/usr/bin/vscodium"),
            product: product("VSCodium", "codium"),
        },
    ];
    let found = discover(probes, Platform::Linux, &home());
    assert_eq!(found.len(), 2);
    assert_eq!(found[0].id(), "Code - OSS");
    assert_eq!(found[1].id(), "VSCodium");
    assert_eq!(found[1].launcher_aliases, vec!["codium".to_owned()]);
    assert!(discover(Vec::new(), Platform::Linux, &home()).is_empty());

    let mut list = Vec::new();
    add_discovered(&mut list, editor());
    add_discovered(&mut list, editor());
    assert_eq!(list.len(), 1);
}

#[test]
fn from_path_chooses_the_launcher() {
    let input = FsPath::from_text("/opt/codium/bin/codium");
    let e = from_path(&input, true, product("VSCodium", "codium"), None, Platform::Linux, &home()).unwrap();
    assert_eq!(e.launcher.to_path_buf(), PathBuf::from("/opt/codium/bin/codium"));
    let dir = FsPath::from_text("/opt/codium");
    let e = from_path(&dir, false, product("VSCodium", "codium"), None, Platform::Linux, &home()).unwrap();
    assert_eq!(e.launcher.to_path_buf(), PathBuf::from("codium"));
    let found = FsPath::from_text("/usr/bin/codium");
    let e = from_path(&dir, false, product("VSCodium", "codium"), Some(found), Platform::Linux, &home()).unwrap();
    assert_eq!(e.launcher.to_path_buf(), PathBuf::from("/usr/bin/codium"));
}

#[test]
fn the_registry_list_may_be_encoded_or_plain() {
    let plain = JsonValue::Object(vec![
        ("other".to_owned(), JsonValue::Bool(true)),
        ("userDataProfiles".to_owned(), JsonValue::Array(vec![])),
    ]);
    assert!(matches!(registry_field(&plain), RegistryField::Listed(JsonValue::Array(_))));
    let encoded = JsonValue::Object(vec![(
        "userDataProfiles".to_owned(),
        JsonValue::String("[]".to_owned()),
    )]);
    assert!(matches!(registry_field(&encoded), RegistryField::Encoded(ref s) if s == "[]"));
    assert!(matches!(registry_field(&JsonValue::Object(vec![])), RegistryField::Absent));
    assert!(matches!(registry_field(&JsonValue::Null), RegistryField::Absent));

    let updated = registry_with(&plain, JsonValue::Array(vec![JsonValue::Null])).unwrap();
    let expected = JsonValue::Object(vec![
        ("other".to_owned(), JsonValue::Bool(true)),
        ("userDataProfiles".to_owned(), JsonValue::Array(vec![JsonValue::Null])),
    ]);
    assert!(json_eq(&updated, &expected));
    let fresh = registry_with(&JsonValue::Object(vec![]), JsonValue::Array(vec![])).unwrap();
    assert!(matches!(fresh, JsonValue::Object(ref m) if m.len() == 1));
    assert!(registry_with(&JsonValue::Bool(false), JsonValue::Null).is_none());
}
