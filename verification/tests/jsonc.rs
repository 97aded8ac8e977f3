use code_profile_sync::jsonc::{strip_comments, strip_trailing_commas, to_json};

#[test]
fn comments_are_dropped_outside_strings() {
    assert_eq!(strip_comments("{\"a\": 1} // note\n"), "{\"a\": 1} \n");
    assert_eq!(strip_comments("{/* x */\"a\": 1}"), "{ \"a\": 1}");
    assert_eq!(strip_comments("\"http://x\""), "\"http://x\"");
    assert_eq!(strip_comments("\"a\\\"//b\""), "\"a\\\"//b\"");
    assert_eq!(strip_comments("1 / 2"), "1 / 2");
    assert_eq!(strip_comments("x/"), "x/");
    assert_eq!(strip_comments("/* unterminated"), "");
    assert_eq!(strip_comments("/**/"), " ");
}

#[test]
fn trailing_commas_are_dropped() {
    assert_eq!(strip_trailing_commas("{\"a\": 1,}"), "{\"a\": 1}");
    assert_eq!(strip_trailing_commas("[1, 2,\n ]"), "[1, 2\n ]");
    assert_eq!(strip_trailing_commas("[1, 2]"), "[1, 2]");
    assert_eq!(strip_trailing_commas("\",}\""), "\",}\"");
}

#[test]
fn settings_files_become_plain_json() {
    let text = "{\n  // editor\n  \"editor.tabSize\": 2, /* two */\n  \"files.exclude\": {\"**/.git\": true,},\n}\n";
    assert_eq!(
        to_json(text),
        "{\n  \n  \"editor.tabSize\": 2,  \n  \"files.exclude\": {\"**/.git\": true}\n}\n"
    );
}

#[test]
fn plain_json_passes_through() {
    let text = "{\"a\": [1, 2], \"b\": {\"c\": \"x,}\"}}";
    assert_eq!(to_json(text), text);
}
