use code_profile_sync::collections::NameMap;
use code_profile_sync::editor::profiles::{
    registry_field_of_text, updated_registry, RegistryError, RegistryField,
};
use code_profile_sync::extension::{entries_of_text, read_membership_text};
use code_profile_sync::json::{array_file_text, json_eq, json_file_text, json_text, parse_document, JsonValue};
use code_profile_sync::jsonc::settings_of_text;
use code_profile_sync::settings::{settings_file_text, Settings};

fn text(s: &str) -> JsonValue {
    JsonValue::String(s.to_owned())
}

fn number(s: &str) -> JsonValue {
    JsonValue::Number(s.to_owned())
}

fn object(members: Vec<(&str, JsonValue)>) -> JsonValue {
    JsonValue::Object(members.into_iter().map(|(k, v)| (k.to_owned(), v)).collect())
}

#[test]
fn documents_parse_into_values_with_members_in_key_order() {
    let v = parse_document(r#"{"b": [1, 2.5, null], "a": {"x": true}, "c": "s"}"#).unwrap();
    let expected = object(vec![
        ("a", object(vec![("x", JsonValue::Bool(true))])),
        ("b", JsonValue::Array(vec![number("1"), number("2.5"), JsonValue::Null])),
        ("c", text("s")),
    ]);
    assert!(json_eq(&v, &expected));
}

#[test]
fn invalid_documents_do_not_parse() {
    assert!(parse_document("{").is_none());
    assert!(parse_document("").is_none());
    assert!(parse_document("[1,]").is_none());
    assert!(parse_document("1 2").is_none());
}

#[test]
fn membership_text_gives_the_normalized_ids() {
    let ids = read_membership_text(
        r#"[{"identifier": {"id": "Rust-Lang.Rust-Analyzer"}}, {"identifier": {"id": "a.b@1.0"}}, {"other": 1}]"#,
    )
    .unwrap();
    assert_eq!(ids.len(), 2);
    assert!(ids.contains("rust-lang.rust-analyzer"));
    assert!(ids.contains("a.b"));
    assert!(read_membership_text("[]").unwrap().len() == 0);
    assert!(read_membership_text(r#"{"identifier": {"id": "a.b"}}"#).is_none());
    assert!(read_membership_text("not json").is_none());
}

#[test]
fn entries_text_must_be_an_array() {
    let entries = entries_of_text(r#"[{"a": 1}, "x"]"#).unwrap();
    assert_eq!(entries.len(), 2);
    assert!(json_eq(&entries[0], &object(vec![("a", number("1"))])));
    assert!(json_eq(&entries[1], &text("x")));
    assert!(entries_of_text("{}").is_none());
    assert!(entries_of_text("[").is_none());
}

#[test]
fn registry_text_tells_the_list_forms_apart() {
    assert!(matches!(registry_field_of_text(r#"{"other": 1}"#), Some(RegistryField::Absent)));
    assert!(matches!(registry_field_of_text("[1]"), Some(RegistryField::Absent)));
    match registry_field_of_text(r#"{"userDataProfiles": "[]"}"#) {
        Some(RegistryField::Encoded(s)) => assert_eq!(s, "[]"),
        _ => panic!("expected an encoded list"),
    }
    match registry_field_of_text(r#"{"userDataProfiles": [{"name": "A"}]}"#) {
        Some(RegistryField::Listed(v)) => {
            assert!(json_eq(&v, &JsonValue::Array(vec![object(vec![("name", text("A"))])])))
        }
        _ => panic!("expected a listed value"),
    }
    assert!(registry_field_of_text("{").is_none());
}

#[test]
fn registry_updates_keep_other_members() {
    let list = JsonValue::Array(vec![]);
    let updated = updated_registry(Some(r#"{"theme": "dark", "userDataProfiles": 1}"#), list).ok().unwrap();
    let expected = object(vec![("theme", text("dark")), ("userDataProfiles", JsonValue::Array(vec![]))]);
    assert!(json_eq(&updated, &expected));
    let fresh = updated_registry(None, JsonValue::Array(vec![])).ok().unwrap();
    assert!(json_eq(&fresh, &object(vec![("userDataProfiles", JsonValue::Array(vec![]))])));
    assert!(matches!(updated_registry(Some("[1]"), JsonValue::Null), Err(RegistryError::NotObject)));
    assert!(matches!(updated_registry(Some("{"), JsonValue::Null), Err(RegistryError::Unparsable)));
}

#[test]
fn settings_text_reads_jsonc_objects() {
    let s = settings_of_text("{\n  // font\n  \"editor.fontSize\": 14,\n  \"a\": [1,],\n}\n").unwrap();
    assert_eq!(s.len(), 2);
    assert!(json_eq(s.get("editor.fontSize").unwrap(), &number("14")));
    assert!(json_eq(s.get("a").unwrap(), &JsonValue::Array(vec![number("1")])));
    assert_eq!(settings_of_text("  // only a comment\n").unwrap().len(), 0);
    assert_eq!(settings_of_text("").unwrap().len(), 0);
    assert!(settings_of_text("[1]").is_none());
    assert!(settings_of_text("{\"a\": }").is_none());
}

#[test]
fn values_render_as_serde_json_writes_them() {
    let v = object(vec![("a", number("1")), ("b", JsonValue::Array(vec![JsonValue::Bool(false), JsonValue::Null]))]);
    assert_eq!(json_text(&v, false).unwrap(), r#"{"a":1,"b":[false,null]}"#);
    assert_eq!(json_text(&v, true).unwrap(), "{\n  \"a\": 1,\n  \"b\": [\n    false,\n    null\n  ]\n}");
    assert_eq!(json_file_text(&text("x"), false).unwrap(), "\"x\"\n");
    assert!(json_text(&number("one"), false).is_none());
    assert!(json_file_text(&JsonValue::Array(vec![number("1.2.3")]), true).is_none());
}

#[test]
fn entry_lists_and_settings_render_as_files() {
    assert_eq!(array_file_text(&vec![number("1"), text("a")]).unwrap(), "[\n  1,\n  \"a\"\n]\n");
    assert_eq!(array_file_text(&vec![]).unwrap(), "[]\n");
    let mut s: Settings = NameMap::new();
    s.insert("z".to_owned(), JsonValue::Bool(true));
    s.insert("a".to_owned(), number("2"));
    assert_eq!(settings_file_text(&s).unwrap(), "{\n  \"a\": 2,\n  \"z\": true\n}\n");
    let mut bad: Settings = NameMap::new();
    bad.insert("k".to_owned(), number("NaN"));
    assert!(settings_file_text(&bad).is_none());
}

#[test]
fn parsed_text_renders_back() {
    let src = "{\"a\":[1,2],\"b\":{\"c\":\"d\"}}";
    let v = parse_document(src).unwrap();
    assert_eq!(json_text(&v, false).unwrap(), src);
}
