use code_profile_sync::fspath::FsPath;
use code_profile_sync::safety::{
    backup_name, decimal_string, editor_running_in, process_matches, short_hash, temp_name,
    timestamp, timestamp_text,
};
use code_profile_sync::text::{
    eq_ignore_ascii_case, hex_padded_string, text_less, to_ascii_lowercase, trim,
    trimmed_lines_of,
};

#[test]
fn trimming_and_lines() {
    assert_eq!(trim("  a b \t\n"), "a b");
    assert_eq!(trim("\u{3000}x\u{a0}"), "x");
    assert_eq!(trimmed_lines_of(" a \n\nb\r\n"), vec!["a".to_owned(), String::new(), "b".to_owned()]);
    assert_eq!(trimmed_lines_of(""), Vec::<String>::new());
    assert_eq!(trimmed_lines_of("\n"), vec![String::new()]);
}

#[test]
fn ascii_case_helpers() {
    assert_eq!(to_ascii_lowercase("AbC-Ü"), "abc-Ü");
    assert!(eq_ignore_ascii_case("Rust", "rUST"));
    assert!(!eq_ignore_ascii_case("Rust", "Rusty"));
    assert!(text_less("Default", "Rust"));
    assert!(!text_less("b", "a"));
    assert!(text_less("a", "ab"));
}

#[test]
fn process_names_match_the_application() {
    assert!(process_matches("codium", "codium"));
    assert!(process_matches("code-oss", "code"));
    assert!(!process_matches("codium", "code"));
    assert!(!process_matches("cod", "code"));
    let table = vec![(10, "Codium".to_owned()), (20, "bash".to_owned())];
    assert!(editor_running_in(&table, Some(20), "codium"));
    assert!(!editor_running_in(&table, Some(10), "codium"));
    assert!(editor_running_in(&table, None, "CODIUM"));
}

#[test]
fn numbers_and_names() {
    assert_eq!(decimal_string(0), "0");
    assert_eq!(decimal_string(1_700_000_000), "1700000000");
    assert!(timestamp().chars().all(|c| c.is_ascii_digit()));
    assert_eq!(hex_padded_string(255), "000000ff");
    assert_eq!(hex_padded_string(0x1_2345_6789), "123456789");
    assert_eq!(hex_padded_string(u64::MAX), "ffffffffffffffff");
    assert_eq!(hex_padded_string(0xabc), "00000abc");
    assert_eq!(backup_name("00000abc", "settings.json"), "00000abc-settings.json");
    let tag = short_hash(&FsPath::from_text("/a/settings.json"));
    assert!(tag.len() >= 8 && tag.chars().all(|c| c.is_ascii_hexdigit()));
    assert_eq!(tag, short_hash(&FsPath::from_text("/a/settings.json")));
    assert_eq!(temp_name("settings.json", 42, 7), "settings.json.42.7.tmp");
}

#[test]
fn timestamp_text_is_the_seconds_or_zero() {
    assert_eq!(timestamp_text(Some(1_700_000_000)), "1700000000");
    assert_eq!(timestamp_text(Some(0)), "0");
    assert_eq!(timestamp_text(None), "0");
}

#[test]
fn short_hash_tells_paths_apart() {
    let a = short_hash(&FsPath::from_text("/a/settings.json"));
    let b = short_hash(&FsPath::from_text("/b/settings.json"));
    assert_ne!(a, b);
    assert_eq!(a, short_hash(&FsPath::from_text("/a").join("settings.json")));
}
