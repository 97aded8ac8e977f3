use code_profile_sync::collections::IdSet;
use code_profile_sync::extension::{
    add_from_catalog_entries, append_member, best_error_line, entry_id, entry_source,
    is_sidecar_name, pool_catalog, read_membership_file, relative_location, relocated_entry,
    remove_member, sidecar_name, vendor_candidates, vendored_location, CatalogAdd,
};
use code_profile_sync::json::{json_eq, JsonValue};

fn text(s: &str) -> JsonValue {
    JsonValue::String(s.to_owned())
}

fn object(members: Vec<(&str, JsonValue)>) -> JsonValue {
    JsonValue::Object(members.into_iter().map(|(k, v)| (k.to_owned(), v)).collect())
}

/// A pool entry as the editor writes it (members in key order).
fn entry_from(id: &str, source: &str) -> JsonValue {
    let relative = format!("{}-1.0.0", id.to_ascii_lowercase());
    object(vec![
        ("identifier", object(vec![("id", text(id))])),
        (
            "location",
            object(vec![
                ("$mid", JsonValue::Number("1".to_owned())),
                ("path", text(&format!("/fake/extensions/{relative}"))),
                ("scheme", text("file")),
            ]),
        ),
        (
            "metadata",
            object(vec![("source", text(source)), ("targetPlatform", text("universal"))]),
        ),
        ("relativeLocation", text(&relative)),
        ("version", text("1.0.0")),
    ])
}

fn entry(id: &str) -> JsonValue {
    entry_from(id, "gallery")
}

fn ids(v: &IdSet) -> Vec<String> {
    (0..v.len()).map(|i| v.item(i).clone()).collect()
}

#[test]
fn best_error_line_prefers_the_failure_over_noise_and_progress() {
    let stderr = "Warning: 'enable-features' is not in the list of known options\n\
                  (node:36363) [DEP0169] DeprecationWarning: url.parse() ...\n\
                  Extension 'x.y' not found.\n\
                  Make sure you use the full extension ID, including the publisher\n\
                  Failed Installing Extensions: x.y";
    let stdout = "Installing extensions...";
    assert_eq!(
        best_error_line(stderr, stdout),
        "Failed Installing Extensions: x.y"
    );
}

#[test]
fn best_error_line_falls_back_to_last_line() {
    assert_eq!(
        best_error_line("", "something odd happened"),
        "something odd happened"
    );
    assert_eq!(best_error_line("", ""), "unknown error");
}

#[test]
fn best_error_line_finds_errors_in_any_case_and_trims() {
    assert_eq!(
        best_error_line("  ERROR: boom  \nfinal chatter\n", "more chatter"),
        "ERROR: boom"
    );
    assert_eq!(best_error_line("a\r\nb\r\n", ""), "b");
    assert_eq!(best_error_line("Warning: x\n\n   \n", "Installing extensions..."), "unknown error");
}

#[test]
fn entry_ids_are_read_from_the_identifier_and_normalized() {
    assert_eq!(entry_id(&entry("Pub.One")), Some("pub.one".to_owned()));
    assert_eq!(entry_id(&object(vec![("identifier", text("x"))])), None);
    assert_eq!(entry_id(&object(vec![])), None);
    assert_eq!(entry_id(&text("pub.one")), None);
}

#[test]
fn membership_collects_normalized_ids() {
    let entries = vec![entry("Pub.One"), entry("pub.two"), text("junk"), entry("PUB.ONE")];
    let members = read_membership_file(&entries);
    assert_eq!(ids(&members), vec!["pub.one".to_owned(), "pub.two".to_owned()]);
    assert_eq!(read_membership_file(&Vec::new()).len(), 0);
}

#[test]
fn catalog_keeps_the_first_entry_per_id() {
    let first = entry_from("Pub.One", "vsix");
    let entries = vec![first, entry("pub.one"), entry("Pub.Two")];
    let catalog = pool_catalog(&entries);
    assert_eq!(catalog.len(), 2);
    assert_eq!(entry_source(catalog.get("pub.one").unwrap()), Some("vsix".to_owned()));
}

#[test]
fn adding_from_the_catalog_appends_the_pool_entry_once() {
    let catalog = pool_catalog(&vec![entry("Pub.One")]);
    let current = vec![entry("pub.other")];
    match add_from_catalog_entries(&current, "pub.one", &catalog) {
        CatalogAdd::Added(v) => {
            assert_eq!(v.len(), 2);
            assert!(json_eq(&v[1], &entry("Pub.One")));
            assert!(matches!(
                add_from_catalog_entries(&v, "pub.one", &catalog),
                CatalogAdd::AlreadyMember
            ));
        }
        _ => panic!("expected the pool entry to be added"),
    }
    assert!(matches!(
        add_from_catalog_entries(&current, "pub.missing", &catalog),
        CatalogAdd::NotInPool
    ));
}

#[test]
fn remove_member_drops_every_entry_of_the_id() {
    let entries = vec![entry("Pub.One"), entry("pub.two"), entry("pub.one")];
    let (kept, removed) = remove_member(&entries, "pub.one");
    assert!(removed);
    assert_eq!(kept.len(), 1);
    assert!(json_eq(&kept[0], &entry("pub.two")));
    let (same, removed) = remove_member(&kept, "pub.one");
    assert!(!removed);
    assert_eq!(same.len(), 1);
}

#[test]
fn append_member_refuses_an_existing_member() {
    let entries = vec![entry("Pub.One")];
    assert!(append_member(&entries, "pub.one", &entry("pub.one")).is_none());
    let added = append_member(&entries, "pub.two", &entry("Pub.Two")).unwrap();
    assert_eq!(added.len(), 2);
}

#[test]
fn relocation_points_the_entry_at_this_pool() {
    let moved = relocated_entry(&entry("Pub.One"), "/pool/pub.one-1.0.0");
    let expected_location = object(vec![
        ("$mid", JsonValue::Number("1".to_owned())),
        ("path", text("/pool/pub.one-1.0.0")),
        ("scheme", text("file")),
    ]);
    match &moved {
        JsonValue::Object(members) => {
            let keys: Vec<&str> = members.iter().map(|(k, _)| k.as_str()).collect();
            assert_eq!(
                keys,
                vec!["identifier", "location", "metadata", "relativeLocation", "version"]
            );
            assert!(json_eq(&members[1].1, &expected_location));
        }
        _ => panic!("expected an object"),
    }
    let bare = relocated_entry(&object(vec![("zeta", JsonValue::Null)]), "/p");
    match &bare {
        JsonValue::Object(members) => {
            assert_eq!(members.len(), 2);
            assert_eq!(members[0].0, "location");
            assert_eq!(members[1].0, "zeta");
        }
        _ => panic!("expected an object"),
    }
    assert!(json_eq(&relocated_entry(&text("x"), "/p"), &text("x")));
}

#[test]
fn vendoring_picks_local_vsix_entries_in_id_order() {
    let catalog = pool_catalog(&vec![
        entry_from("Zed.Local", "vsix"),
        entry_from("Pub.Gallery", "gallery"),
        entry_from("Abc.Local", "vsix"),
    ]);
    let mut wanted = IdSet::new();
    wanted.insert("zed.local".to_owned());
    wanted.insert("pub.gallery".to_owned());
    wanted.insert("abc.local".to_owned());
    wanted.insert("not.in.pool".to_owned());
    let picked = vendor_candidates(&catalog, &wanted);
    assert_eq!(
        picked,
        vec![
            ("abc.local".to_owned(), "abc.local-1.0.0".to_owned()),
            ("zed.local".to_owned(), "zed.local-1.0.0".to_owned()),
        ]
    );
}

#[test]
fn sidecars_are_named_after_the_folder() {
    assert_eq!(sidecar_name("pub.one-1.0.0"), "pub.one-1.0.0.entry.json");
    assert!(is_sidecar_name("pub.one-1.0.0.entry.json"));
    assert!(!is_sidecar_name("pub.one-1.0.0.json"));
    let e = entry_from("Pub.One", "vsix");
    assert_eq!(relative_location(&e), Some("pub.one-1.0.0".to_owned()));
    assert_eq!(vendored_location(&e, "pub.one"), Some("pub.one-1.0.0".to_owned()));
    assert_eq!(vendored_location(&e, "pub.two"), None);
}

#[test]
fn relocated_entries_keep_their_id() {
    let e = entry_from("Pub.One", "vsix");
    let moved = relocated_entry(&e, "/elsewhere");
    assert_eq!(entry_id(&moved), entry_id(&e));
}

#[test]
fn removing_a_member_removes_only_that_id() {
    let entries = vec![entry("Pub.One"), entry("pub.two"), entry("Pub.Three")];
    let (kept, _) = remove_member(&entries, "pub.two");
    assert_eq!(ids(&read_membership_file(&kept)), vec!["pub.one".to_owned(), "pub.three".to_owned()]);
}
