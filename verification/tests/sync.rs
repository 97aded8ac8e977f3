use code_profile_sync::cli::Prefer;
use code_profile_sync::collections::{IdSet, NameMap};
use code_profile_sync::config::{Config, ProfileConfig};
use code_profile_sync::editor::profiles::{read_all, Profile, StoredProfile};
use code_profile_sync::extension::{
    add_from_catalog_entries, pool_catalog, read_membership_file, remove_member, CatalogAdd,
};
use code_profile_sync::json::{json_eq, JsonValue};
use code_profile_sync::settings::Settings;
use code_profile_sync::snapshot::{ProfileSnapshot, Snapshot};
use code_profile_sync::sync::{
    actual_state, apply_settings, capture_profile, classify, extension_changes, push_plan,
    reconcile_extensions, reconcile_settings, removed_keys, report_drift, sync_plan, union_names,
    ConflictChoices, Decision, Drift, ExtensionWrite,
};

fn num(text: &str) -> JsonValue {
    JsonValue::Number(text.to_owned())
}

fn text(s: &str) -> JsonValue {
    JsonValue::String(s.to_owned())
}

fn object(members: Vec<(&str, JsonValue)>) -> JsonValue {
    JsonValue::Object(members.into_iter().map(|(k, v)| (k.to_owned(), v)).collect())
}

fn settings(pairs: Vec<(&str, JsonValue)>) -> Settings {
    let mut m = NameMap::new();
    for (k, v) in pairs {
        m.insert(k.to_owned(), v);
    }
    m
}

fn id_set(items: &[&str]) -> IdSet {
    let mut s = IdSet::new();
    for i in items {
        s.insert((*i).to_owned());
    }
    s
}

fn ids(v: &IdSet) -> Vec<String> {
    (0..v.len()).map(|i| v.item(i).clone()).collect()
}

fn entry(id: &str) -> JsonValue {
    let relative = format!("{}-1.0.0", id.to_ascii_lowercase());
    object(vec![
        ("identifier", object(vec![("id", text(id))])),
        (
            "location",
            object(vec![
                ("$mid", num("1")),
                ("path", text(&format!("/fake/extensions/{relative}"))),
                ("scheme", text("file")),
            ]),
        ),
        (
            "metadata",
            object(vec![("source", text("gallery")), ("targetPlatform", text("universal"))]),
        ),
        ("relativeLocation", text(&relative)),
        ("version", text("1.0.0")),
    ])
}

fn entries(list: &[&str]) -> Vec<JsonValue> {
    list.iter().map(|id| entry(id)).collect()
}

/// The editor's profiles: Default and the `Rust` profile of the registry.
fn editor_profiles() -> Vec<Profile> {
    let mut flags = NameMap::new();
    flags.insert("keybindings".to_owned(), true);
    read_all(vec![StoredProfile {
        name: "Rust".to_owned(),
        location: "-rust".to_owned(),
        icon: Some("package".to_owned()),
        use_default_flags: Some(flags),
    }])
}

fn rust_config(pairs: Vec<(&str, JsonValue)>, extensions: &[&str]) -> Config {
    let mut config = Config::default();
    config.profiles.insert(
        "Rust".to_owned(),
        ProfileConfig {
            settings: settings(pairs),
            extensions: extensions.iter().map(|id| (*id).to_owned()).collect(),
            ..ProfileConfig::default()
        },
    );
    config
}

/// Installs `desired` into a membership list from the pool and, when
/// pruning, removes what is not desired.
fn apply_extensions(
    list: Vec<JsonValue>,
    desired: &IdSet,
    pool: &Vec<JsonValue>,
    prune: bool,
) -> Vec<JsonValue> {
    let catalog = pool_catalog(pool);
    let current = read_membership_file(&list);
    let (install, extra) = extension_changes(desired, &current);
    let mut list = list;
    for id in &install {
        match add_from_catalog_entries(&list, id, &catalog) {
            CatalogAdd::Added(v) => list = v,
            CatalogAdd::AlreadyMember => {}
            CatalogAdd::NotInPool => panic!("{id} is not in the pool"),
        }
    }
    if prune {
        for id in &extra {
            list = remove_member(&list, id).0;
        }
    }
    list
}

#[test]
fn classify_three_way_truth_table() {
    let a = num("1");
    let b = num("2");
    let c = num("3");

    assert!(matches!(classify(None, Some(&a), Some(&a)), Decision::Agree));
    assert!(matches!(classify(Some(&a), Some(&b), Some(&a)), Decision::TakeRepo));
    assert!(matches!(classify(Some(&a), Some(&a), Some(&b)), Decision::TakeEditor));
    assert!(matches!(classify(Some(&a), Some(&b), Some(&c)), Decision::Conflict));
}

#[test]
fn classify_without_base_adopts_the_present_side() {
    let a = num("1");
    let b = num("2");
    // Only one side has the item and there is no base: take that side.
    assert!(matches!(classify(None, Some(&a), None), Decision::TakeRepo));
    assert!(matches!(classify(None, None, Some(&a)), Decision::TakeEditor));
    // Both present but differing, no base: a genuine conflict.
    assert!(matches!(classify(None, Some(&a), Some(&b)), Decision::Conflict));
}

#[test]
fn classify_is_symmetric_between_the_sides() {
    let a = num("1");
    let b = num("2");
    assert_eq!(classify(Some(&a), Some(&b), Some(&a)), Decision::TakeRepo);
    assert_eq!(classify(Some(&a), Some(&a), Some(&b)), Decision::TakeEditor);
    assert_eq!(classify(Some(&a), None, Some(&a)), Decision::TakeRepo);
    assert_eq!(classify(Some(&a), Some(&a), None), Decision::TakeEditor);
    assert_eq!(classify(Some(&a), None, None), Decision::Agree);
}

#[test]
fn push_writes_settings_and_adds_pool_extension_to_named_profile() {
    let pool = entries(&["Pub.One"]);
    let config = rust_config(vec![("editor.tabSize", num("2"))], &["pub.one"]);
    let resolved = config.resolve();
    let want = resolved.get("Rust").unwrap();
    let profiles = editor_profiles();
    let rust = &profiles[1];

    // Settings: write resolved keys (config wins per key), keep others.
    let mut object = settings(vec![("other", JsonValue::Bool(true))]);
    let changed = apply_settings(&mut object, &want.settings, &Vec::new());
    assert_eq!(changed, 1);
    assert!(json_eq(object.get("editor.tabSize").unwrap(), &num("2")));
    assert!(object.get("other").is_some());

    // Extensions: install the missing desired one from the pool.
    let list = apply_extensions(Vec::new(), &want.extensions, &pool, false);
    assert_eq!(ids(&read_membership_file(&list)), vec!["pub.one".to_owned()]);

    // The snapshot records what the editor now holds.
    let (s, e) = actual_state(rust, &object, &read_membership_file(&list));
    let mut snapshot = Snapshot::default();
    snapshot.profiles.insert("Rust".to_owned(), ProfileSnapshot { settings: s, extensions: e });
    let recorded = snapshot.profile("Rust").unwrap();
    assert!(json_eq(recorded.settings.get("editor.tabSize").unwrap(), &num("2")));
    assert_eq!(ids(&recorded.extensions), vec!["pub.one".to_owned()]);
}

#[test]
fn pull_captures_editor_state_into_config_and_snapshot() {
    let raw = settings(vec![
        ("editor.formatOnSave", JsonValue::Bool(true)),
        ("ignored.null", JsonValue::Null),
    ]);
    let membership = read_membership_file(&entries(&["Pub.Editor"]));
    let profiles = editor_profiles();
    let rust = &profiles[1];
    let mut config = Config::default();
    let mut snapshot = Snapshot::default();

    let (s, e) = actual_state(rust, &raw, &membership);
    capture_profile(&mut config, &mut snapshot, "Rust", rust, &s, &e);

    let captured = config.profiles.get("Rust").unwrap();
    assert!(json_eq(captured.settings.get("editor.formatOnSave").unwrap(), &JsonValue::Bool(true)));
    assert_eq!(captured.extensions, vec!["pub.editor".to_owned()]);
    assert_eq!(captured.icon.as_deref(), Some("package"));
    assert!(captured.use_default.get("keybindings").copied().unwrap_or(false));
    let recorded = snapshot.profile("Rust").unwrap();
    assert!(recorded.settings.get("ignored.null").is_none());
    assert_eq!(ids(&recorded.extensions), vec!["pub.editor".to_owned()]);
}

#[test]
fn sync_reconciles_repo_and_editor_changes_against_snapshot() {
    let pool = entries(&["Pub.Base", "Pub.Repo"]);
    let editor_settings = settings(vec![
        ("repo.changed", num("1")),
        ("editor.changed", text("editor")),
        ("repo.removed", JsonValue::Bool(true)),
    ]);
    let editor_list = entries(&["Pub.Base"]);
    let mut config = rust_config(
        vec![
            ("repo.changed", num("2")),
            ("editor.changed", text("base")),
            ("repo.added", JsonValue::Bool(true)),
        ],
        &["pub.repo"],
    );
    let mut snapshot = Snapshot::default();
    snapshot.profiles.insert(
        "Rust".to_owned(),
        ProfileSnapshot {
            settings: settings(vec![
                ("repo.changed", num("1")),
                ("editor.changed", text("base")),
                ("repo.removed", JsonValue::Bool(true)),
            ]),
            extensions: id_set(&["pub.base"]),
        },
    );

    let resolved = config.resolve();
    let want = resolved.get("Rust").unwrap();
    let profiles = editor_profiles();
    let rust = &profiles[1];
    let (actual_settings, actual_extensions) =
        actual_state(rust, &editor_settings, &read_membership_file(&editor_list));
    let base = snapshot.profile("Rust").unwrap();

    let merged = reconcile_settings(
        &base.settings,
        &want.settings,
        &actual_settings,
        &ConflictChoices::none(),
    )
    .unwrap();
    let exts = reconcile_extensions(&base.extensions, &want.extensions, &actual_extensions);

    // Apply to the editor.
    let removes = removed_keys(&actual_settings, &merged);
    let mut object = editor_settings;
    apply_settings(&mut object, &merged, &removes);
    assert!(json_eq(object.get("repo.changed").unwrap(), &num("2")));
    assert!(json_eq(object.get("editor.changed").unwrap(), &text("editor")));
    assert!(json_eq(object.get("repo.added").unwrap(), &JsonValue::Bool(true)));
    assert!(object.get("repo.removed").is_none());
    let list = apply_extensions(editor_list, &exts, &pool, true);
    assert_eq!(ids(&read_membership_file(&list)), vec!["pub.repo".to_owned()]);

    // Apply to the config and the snapshot.
    capture_profile(&mut config, &mut snapshot, "Rust", rust, &merged, &exts);
    let captured = config.profiles.get("Rust").unwrap();
    assert!(json_eq(captured.settings.get("editor.changed").unwrap(), &text("editor")));
    let recorded = snapshot.profile("Rust").unwrap();
    assert!(recorded.settings.get("repo.removed").is_none());
    assert_eq!(ids(&recorded.extensions), vec!["pub.repo".to_owned()]);
}

#[test]
fn an_unsettled_conflict_names_the_first_key() {
    let base = settings(vec![("b", num("0")), ("a", num("0"))]);
    let repo = settings(vec![("b", num("1")), ("a", num("1"))]);
    let editor = settings(vec![("b", num("2")), ("a", num("2"))]);
    let err = reconcile_settings(&base, &repo, &editor, &ConflictChoices::none()).err();
    assert_eq!(err, Some("a".to_owned()));

    let keep_editor = ConflictChoices::prefer(Some(Prefer::Editor));
    let merged = reconcile_settings(&base, &repo, &editor, &keep_editor).unwrap();
    assert!(json_eq(merged.get("a").unwrap(), &num("2")));
    let keep_repo = ConflictChoices::prefer(Some(Prefer::Repo));
    let merged = reconcile_settings(&base, &repo, &editor, &keep_repo).unwrap();
    assert!(json_eq(merged.get("b").unwrap(), &num("1")));
}

#[test]
fn merging_identical_sides_changes_nothing() {
    let base = settings(vec![("a", num("0"))]);
    let same = settings(vec![("a", num("5")), ("b", JsonValue::Bool(false))]);
    let merged = reconcile_settings(&base, &same, &same, &ConflictChoices::none()).unwrap();
    assert_eq!(merged.len(), 2);
    assert!(json_eq(merged.get("a").unwrap(), &num("5")));
    assert!(json_eq(merged.get("b").unwrap(), &JsonValue::Bool(false)));
}

#[test]
fn one_sided_change_wins_without_a_conflict() {
    let base = settings(vec![("a", num("0")), ("gone", num("1"))]);
    let changed = settings(vec![("a", num("7")), ("new", num("3"))]);
    let merged = reconcile_settings(&base, &changed, &base, &ConflictChoices::none()).unwrap();
    assert_eq!(merged.len(), 2);
    assert!(json_eq(merged.get("a").unwrap(), &num("7")));
    assert!(merged.get("gone").is_none());
    let merged = reconcile_settings(&base, &base, &changed, &ConflictChoices::none()).unwrap();
    assert!(json_eq(merged.get("new").unwrap(), &num("3")));
}

#[test]
fn extension_merge_keeps_agreed_and_new_items() {
    let base = id_set(&["a", "b"]);
    let repo = id_set(&["a", "c"]);
    let editor = id_set(&["a", "b", "d"]);
    let merged = reconcile_extensions(&base, &repo, &editor);
    assert_eq!(ids(&merged), vec!["a".to_owned(), "c".to_owned(), "d".to_owned()]);
    let unchanged = reconcile_extensions(&base, &base, &base);
    assert_eq!(ids(&unchanged), vec!["a".to_owned(), "b".to_owned()]);
}

#[test]
fn apply_settings_counts_only_real_changes() {
    let mut object = settings(vec![("a", num("1")), ("b", num("2"))]);
    let sets = settings(vec![("a", num("1")), ("c", num("3"))]);
    let changed = apply_settings(&mut object, &sets, &vec!["b".to_owned(), "zzz".to_owned()]);
    assert_eq!(changed, 2);
    assert_eq!(object.len(), 2);
    assert!(json_eq(object.get("c").unwrap(), &num("3")));
}

#[test]
fn drift_report_lists_differences_in_order() {
    let want = settings(vec![("b", num("1")), ("a", num("1")), ("same", num("0"))]);
    let actual = settings(vec![("b", num("2")), ("same", num("0"))]);
    let report = report_drift(&want, &id_set(&["x.one", "x.two"]), &actual, &id_set(&["x.two", "y.extra"]));
    let items: Vec<(u8, String)> = report
        .iter()
        .map(|d| match d {
            Drift::SettingDiffers(k) => (0, k.clone()),
            Drift::MissingInEditor(k) => (1, k.clone()),
            Drift::OnlyInEditor(k) => (2, k.clone()),
        })
        .collect();
    assert_eq!(
        items,
        vec![
            (0, "a".to_owned()),
            (0, "b".to_owned()),
            (1, "x.one".to_owned()),
            (2, "y.extra".to_owned()),
        ]
    );
    let clean = report_drift(&actual, &id_set(&["x"]), &actual, &id_set(&["x"]));
    assert!(clean.is_empty());
}

#[test]
fn union_names_merges_config_and_editor_profiles() {
    let mut a: NameMap<u8> = NameMap::new();
    a.insert("Rust".to_owned(), 0);
    a.insert("Default".to_owned(), 0);
    let mut b: NameMap<bool> = NameMap::new();
    b.insert("Web".to_owned(), true);
    b.insert("Rust".to_owned(), true);
    assert_eq!(
        union_names(&a, &b),
        vec!["Default".to_owned(), "Rust".to_owned(), "Web".to_owned()]
    );
}

#[test]
fn inherited_resources_are_left_empty() {
    let mut flags = NameMap::new();
    flags.insert("settings".to_owned(), true);
    flags.insert("extensions".to_owned(), false);
    let profile = Profile {
        name: "P".to_owned(),
        location: Some("p".to_owned()),
        icon: None,
        use_default: flags,
    };
    let raw = settings(vec![("k", num("1"))]);
    let (s, e) = actual_state(&profile, &raw, &id_set(&["x.y"]));
    assert_eq!(s.len(), 0);
    assert_eq!(ids(&e), vec!["x.y".to_owned()]);
}

#[test]
fn a_captured_profile_resolves_to_what_was_captured() {
    let mut config = Config::default();
    config.global.settings.insert("a".to_owned(), num("1"));
    config.global.extensions.push("pub.global".to_owned());
    config.groups.insert(
        "g".to_owned(),
        code_profile_sync::config::Layer {
            settings: settings(vec![("b", num("2"))]),
            extensions: vec!["pub.group".to_owned()],
        },
    );
    config.profiles.insert(
        "Rust".to_owned(),
        ProfileConfig { groups: vec!["g".to_owned()], ..ProfileConfig::default() },
    );
    let editor_state = settings(vec![("a", num("1")), ("b", num("3")), ("c", num("4"))]);
    let editor_exts = id_set(&["pub.group", "pub.own"]);
    let profiles = editor_profiles();
    let mut snapshot = Snapshot::default();
    capture_profile(&mut config, &mut snapshot, "Rust", &profiles[1], &editor_state, &editor_exts);

    let captured = config.profiles.get("Rust").unwrap();
    assert_eq!(captured.settings.len(), 2, "only what differs from the base is kept");
    assert_eq!(captured.extensions, vec!["pub.own".to_owned()]);
    assert_eq!(captured.exclude_extensions, vec!["pub.global".to_owned()]);

    let resolved = config.resolve();
    let rust = resolved.get("Rust").unwrap();
    assert_eq!(rust.settings.len(), 3);
    assert!(json_eq(rust.settings.get("a").unwrap(), &num("1")));
    assert!(json_eq(rust.settings.get("b").unwrap(), &num("3")));
    assert!(json_eq(rust.settings.get("c").unwrap(), &num("4")));
    assert_eq!(ids(&rust.extensions), vec!["pub.group".to_owned(), "pub.own".to_owned()]);
}

#[test]
fn after_a_sync_the_editor_reads_back_the_merged_settings() {
    let raw = settings(vec![("a", num("1")), ("n", JsonValue::Null), ("gone", num("2"))]);
    let base = settings(vec![("a", num("1")), ("gone", num("2"))]);
    let want = settings(vec![("a", num("5"))]);
    let actual = code_profile_sync::settings::sanitize_settings(&raw);
    let merged = reconcile_settings(&base, &want, &actual, &ConflictChoices::none()).unwrap();
    let removes = removed_keys(&actual, &merged);
    assert_eq!(removes, vec!["gone".to_owned()]);
    let mut object = raw;
    apply_settings(&mut object, &merged, &removes);
    let read_back = code_profile_sync::settings::sanitize_settings(&object);
    assert_eq!(read_back.len(), merged.len());
    assert_eq!(merged.len(), 1);
    assert!(json_eq(read_back.get("a").unwrap(), merged.get("a").unwrap()));
}

#[test]
fn push_plans_writes_for_what_is_not_inherited() {
    let mut config = rust_config(vec![("k", num("1"))], &["pub.one", "pub.two"]);
    let mut flags = NameMap::new();
    flags.insert("settings".to_owned(), true);
    config.profiles.insert(
        "Web".to_owned(),
        ProfileConfig { use_default: flags, extensions: vec!["pub.one".to_owned()], ..ProfileConfig::default() },
    );
    let resolved = config.resolve();
    let profiles = editor_profiles();
    let current = id_set(&["pub.two", "pub.extra"]);

    let plan = push_plan(resolved.get("Rust").unwrap(), &profiles[1], &current);
    let write = plan.settings.unwrap();
    assert_eq!(write.sets.len(), 1);
    assert!(write.removes.is_empty());
    let ext = plan.extensions.unwrap();
    assert_eq!(ext.install, vec!["pub.one".to_owned()]);
    assert_eq!(ext.extra, vec!["pub.extra".to_owned()]);
    assert!(!ext.prune);

    let web = push_plan(resolved.get("Web").unwrap(), &profiles[1], &current);
    assert!(web.settings.is_none());
    assert!(web.extensions.is_some());
}

#[test]
fn sync_plans_the_writes_that_reach_the_merge() {
    let base = ProfileSnapshot {
        settings: settings(vec![("kept", num("1")), ("dropped", num("2"))]),
        extensions: id_set(&["pub.base"]),
    };
    let config = rust_config(vec![("kept", num("1")), ("added", num("3"))], &["pub.repo"]);
    let resolved = config.resolve();
    let profiles = editor_profiles();
    let actual = settings(vec![("kept", num("1")), ("dropped", num("2"))]);
    let outcome = sync_plan(
        &base,
        resolved.get("Rust").unwrap(),
        &profiles[1],
        &actual,
        &id_set(&["pub.base"]),
        &ConflictChoices::none(),
    )
    .ok()
    .unwrap();
    assert_eq!(outcome.settings.len(), 2);
    assert!(outcome.settings.get("dropped").is_none());
    let write = outcome.plan.settings.unwrap();
    assert_eq!(write.removes, vec!["dropped".to_owned()]);
    let ext = outcome.plan.extensions.unwrap();
    assert_eq!(ext.install, vec!["pub.repo".to_owned()]);
    assert_eq!(ext.extra, vec!["pub.base".to_owned()]);
    assert!(ext.prune);
    assert_eq!(ids(&outcome.extensions), vec!["pub.repo".to_owned()]);
}

/// Performs an extension write on a membership list as the engine does:
/// installs from the pool, and removes the extras when pruning.
fn perform_extensions(list: Vec<JsonValue>, write: &ExtensionWrite, pool: &Vec<JsonValue>) -> Vec<JsonValue> {
    let catalog = pool_catalog(pool);
    let mut list = list;
    for id in &write.install {
        match add_from_catalog_entries(&list, id, &catalog) {
            CatalogAdd::Added(v) => list = v,
            CatalogAdd::AlreadyMember => {}
            CatalogAdd::NotInPool => panic!("{id} is not in the pool"),
        }
    }
    if write.prune {
        for id in &write.extra {
            list = remove_member(&list, id).0;
        }
    }
    list
}

#[test]
fn push_plan_drives_the_push_fixture() {
    let pool = entries(&["Pub.One"]);
    let config = rust_config(vec![("editor.tabSize", num("2"))], &["pub.one"]);
    let resolved = config.resolve();
    let want = resolved.get("Rust").unwrap();
    let profiles = editor_profiles();
    let rust = &profiles[1];

    let mut object = settings(vec![("other", JsonValue::Bool(true))]);
    let current = read_membership_file(&Vec::new());
    let plan = push_plan(want, rust, &current);

    let write = plan.settings.as_ref().expect("settings are not inherited");
    assert!(write.removes.is_empty());
    assert_eq!(apply_settings(&mut object, &write.sets, &write.removes), 1);
    assert!(json_eq(object.get("editor.tabSize").unwrap(), &num("2")));
    assert!(object.get("other").is_some());

    let exts = plan.extensions.as_ref().expect("extensions are not inherited");
    assert_eq!(exts.install, vec!["pub.one".to_owned()]);
    assert!(exts.extra.is_empty());
    assert!(!exts.prune);
    let list = perform_extensions(Vec::new(), exts, &pool);

    // The snapshot records what the editor holds after the writes.
    let (s, e) = actual_state(rust, &object, &read_membership_file(&list));
    assert!(json_eq(s.get("editor.tabSize").unwrap(), &num("2")));
    assert_eq!(ids(&e), vec!["pub.one".to_owned()]);
}

#[test]
fn sync_plan_drives_the_sync_fixture() {
    let pool = entries(&["Pub.Base", "Pub.Repo"]);
    let editor_settings = settings(vec![
        ("repo.changed", num("1")),
        ("editor.changed", text("editor")),
        ("repo.removed", JsonValue::Bool(true)),
    ]);
    let editor_list = entries(&["Pub.Base"]);
    let mut config = rust_config(
        vec![
            ("repo.changed", num("2")),
            ("editor.changed", text("base")),
            ("repo.added", JsonValue::Bool(true)),
        ],
        &["pub.repo"],
    );
    let mut snapshot = Snapshot::default();
    snapshot.profiles.insert(
        "Rust".to_owned(),
        ProfileSnapshot {
            settings: settings(vec![
                ("repo.changed", num("1")),
                ("editor.changed", text("base")),
                ("repo.removed", JsonValue::Bool(true)),
            ]),
            extensions: id_set(&["pub.base"]),
        },
    );
    let resolved = config.resolve();
    let want = resolved.get("Rust").unwrap();
    let profiles = editor_profiles();
    let rust = &profiles[1];
    let (actual_settings, actual_extensions) =
        actual_state(rust, &editor_settings, &read_membership_file(&editor_list));
    let base = snapshot.profile("Rust").unwrap();

    let outcome = sync_plan(
        base,
        want,
        rust,
        &actual_settings,
        &actual_extensions,
        &ConflictChoices::none(),
    )
    .ok()
    .expect("no conflict");

    let write = outcome.plan.settings.as_ref().expect("settings are not inherited");
    assert_eq!(write.removes, vec!["repo.removed".to_owned()]);
    let mut object = editor_settings;
    apply_settings(&mut object, &write.sets, &write.removes);
    assert!(json_eq(object.get("repo.changed").unwrap(), &num("2")));
    assert!(json_eq(object.get("editor.changed").unwrap(), &text("editor")));
    assert!(json_eq(object.get("repo.added").unwrap(), &JsonValue::Bool(true)));
    assert!(object.get("repo.removed").is_none());

    let exts = outcome.plan.extensions.as_ref().expect("extensions are not inherited");
    assert!(exts.prune);
    assert_eq!(exts.install, vec!["pub.repo".to_owned()]);
    assert_eq!(exts.extra, vec!["pub.base".to_owned()]);
    let list = perform_extensions(editor_list, exts, &pool);
    assert_eq!(ids(&read_membership_file(&list)), vec!["pub.repo".to_owned()]);

    capture_profile(&mut config, &mut snapshot, "Rust", rust, &outcome.settings, &outcome.extensions);
    let captured = config.profiles.get("Rust").unwrap();
    assert!(json_eq(captured.settings.get("editor.changed").unwrap(), &text("editor")));
    let recorded = snapshot.profile("Rust").unwrap();
    assert!(json_eq(recorded.settings.get("repo.changed").unwrap(), &num("2")));
    assert!(recorded.settings.get("repo.removed").is_none());
    assert_eq!(ids(&recorded.extensions), vec!["pub.repo".to_owned()]);
}
