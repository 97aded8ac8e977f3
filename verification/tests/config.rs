use code_profile_sync::collections::NameMap;
use code_profile_sync::config::{normalize_id, Config, Layer, ProfileConfig, DEFAULT_PROFILE};
use code_profile_sync::json::{json_eq, strip_nulls, JsonValue};
use code_profile_sync::settings::{sanitize_settings, Settings};

fn num(text: &str) -> JsonValue {
    JsonValue::Number(text.to_owned())
}

fn object(members: Vec<(&str, JsonValue)>) -> JsonValue {
    JsonValue::Object(members.into_iter().map(|(k, v)| (k.to_owned(), v)).collect())
}

fn settings(pairs: Vec<(&str, JsonValue)>) -> Settings {
    let mut m = NameMap::new();
    for (k, v) in pairs {
        m.insert(k.to_owned(), v);
    }
    m
}

#[test]
fn resolve_layers_global_group_and_profile() {
    let mut config = Config::default();
    config.global.settings.insert("a".to_owned(), num("1"));
    config.global.extensions.push("pub.global".to_owned());
    config.groups.insert(
        "g".to_owned(),
        Layer {
            settings: settings(vec![("b", num("2"))]),
            extensions: vec!["pub.group".to_owned()],
        },
    );
    config.profiles.insert(
        "P".to_owned(),
        ProfileConfig {
            groups: vec!["g".to_owned()],
            settings: settings(vec![("a", num("10"))]),
            extensions: vec!["pub.profile".to_owned()],
            exclude_extensions: vec!["pub.global".to_owned()],
            ..ProfileConfig::default()
        },
    );

    let resolved = config.resolve();
    let p = resolved.get("P").unwrap();
    assert!(json_eq(p.settings.get("a").unwrap(), &num("10")), "profile overrides global");
    assert!(json_eq(p.settings.get("b").unwrap(), &num("2")), "group setting present");
    assert!(p.extensions.contains("pub.group"));
    assert!(p.extensions.contains("pub.profile"));
    assert!(!p.extensions.contains("pub.global"), "exclude removed a global extension");
}

#[test]
fn strip_nulls_removes_nulls_recursively() {
    let value = object(vec![
        ("a", num("1")),
        ("b", JsonValue::Null),
        ("c", object(vec![("d", JsonValue::Null), ("e", num("2"))])),
        ("f", JsonValue::Array(vec![num("1"), JsonValue::Null, num("2")])),
    ]);
    let stripped = strip_nulls(&value).unwrap();
    let expected = object(vec![
        ("a", num("1")),
        ("c", object(vec![("e", num("2"))])),
        ("f", JsonValue::Array(vec![num("1"), num("2")])),
    ]);
    assert!(json_eq(&stripped, &expected));
}

#[test]
fn normalize_id_drops_version_and_lowercases() {
    assert_eq!(normalize_id("Pub.Name@1.2.3"), "pub.name");
    assert_eq!(normalize_id("  a.b  "), "a.b");
}

#[test]
fn normalize_id_ignores_everything_after_the_first_pin() {
    assert_eq!(normalize_id("Pub.Name@1.2.3@extra"), "pub.name");
    assert_eq!(normalize_id("@1.0"), "");
    assert_eq!(normalize_id("Ünïcode.Ext"), "ünïcode.ext");
}

#[test]
fn strip_nulls_of_null_is_none() {
    assert!(strip_nulls(&JsonValue::Null).is_none());
    let kept = strip_nulls(&JsonValue::Bool(false)).unwrap();
    assert!(json_eq(&kept, &JsonValue::Bool(false)));
}

#[test]
fn sanitize_settings_drops_null_keys() {
    let raw = settings(vec![
        ("editor.formatOnSave", JsonValue::Bool(true)),
        ("ignored.null", JsonValue::Null),
        ("nested", object(vec![("x", JsonValue::Null)])),
    ]);
    let clean = sanitize_settings(&raw);
    assert_eq!(clean.len(), 2);
    assert!(clean.get("ignored.null").is_none());
    assert!(json_eq(clean.get("nested").unwrap(), &object(vec![])));
}

#[test]
fn resolve_includes_default_profile_from_its_own_section() {
    let mut config = Config::default();
    config.global.extensions.push("Pub.Global@2.0".to_owned());
    config.groups.insert(
        "web".to_owned(),
        Layer { settings: settings(vec![("w", JsonValue::Bool(true))]), extensions: vec![] },
    );
    config.default.groups.push("web".to_owned());
    config.default.extensions.push("pub.default".to_owned());

    let resolved = config.resolve();
    assert_eq!(resolved.len(), 1);
    let d = resolved.get(DEFAULT_PROFILE).unwrap();
    assert!(d.extensions.contains("pub.global"));
    assert!(d.extensions.contains("pub.default"));
    assert!(json_eq(d.settings.get("w").unwrap(), &JsonValue::Bool(true)));
    assert!(d.icon.is_none());
}

#[test]
fn later_groups_win_and_unknown_groups_are_ignored() {
    let mut config = Config::default();
    config.groups.insert(
        "one".to_owned(),
        Layer { settings: settings(vec![("k", num("1"))]), extensions: vec![] },
    );
    config.groups.insert(
        "two".to_owned(),
        Layer { settings: settings(vec![("k", num("2"))]), extensions: vec![] },
    );
    config.profiles.insert(
        "P".to_owned(),
        ProfileConfig {
            groups: vec!["one".to_owned(), "missing".to_owned(), "two".to_owned()],
            ..ProfileConfig::default()
        },
    );
    let resolved = config.resolve();
    assert!(json_eq(resolved.get("P").unwrap().settings.get("k").unwrap(), &num("2")));
}

#[test]
fn a_profiles_default_entry_is_refused() {
    let mut config = Config::default();
    assert!(config.is_valid());
    config.profiles.insert("Default".to_owned(), ProfileConfig::default());
    assert!(!config.is_valid());
}

#[test]
fn stripping_nulls_twice_changes_nothing() {
    let value = object(vec![
        ("a", JsonValue::Array(vec![JsonValue::Null, object(vec![("b", JsonValue::Null)])])),
        ("c", JsonValue::Null),
    ]);
    let once = strip_nulls(&value).unwrap();
    let twice = strip_nulls(&once).unwrap();
    assert!(json_eq(&once, &twice));
    assert!(json_eq(&once, &object(vec![("a", JsonValue::Array(vec![object(vec![])]))])));
}

#[test]
fn a_written_config_has_no_nulls() {
    let mut config = Config::default();
    config.editor.name = Some("VSCodium".to_owned());
    config.global.settings.insert("n".to_owned(), JsonValue::Null);
    config.global.settings.insert("k".to_owned(), num("1"));
    config.profiles.insert(
        "P".to_owned(),
        ProfileConfig {
            settings: settings(vec![("o", object(vec![("x", JsonValue::Null)]))]),
            extensions: vec!["pub.one".to_owned()],
            ..ProfileConfig::default()
        },
    );
    let clean = config.sanitized();
    assert_eq!(clean.editor.name.as_deref(), Some("VSCodium"));
    assert_eq!(clean.global.settings.len(), 1);
    let p = clean.profiles.get("P").unwrap();
    assert!(json_eq(p.settings.get("o").unwrap(), &object(vec![])));
    assert_eq!(p.extensions, vec!["pub.one".to_owned()]);
}

#[test]
fn normalized_ascii_ids_are_fixed_points() {
    for s in ["  Rust-Lang.Rust-Analyzer@0.3.1 ", "A.B", "x.y@", "@1.0", " a b "] {
        let r = normalize_id(s);
        assert!(!r.contains('@'));
        assert_eq!(r.trim(), r);
        assert_eq!(r.to_ascii_lowercase(), r);
        assert_eq!(normalize_id(&r), r);
    }
    assert_eq!(normalize_id("  Rust-Lang.Rust-Analyzer@0.3.1 "), "rust-lang.rust-analyzer");
}
