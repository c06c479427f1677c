//! Scenario tests for the format-preserving workspace list editor and the
//! path algebra its membership decisions rest on.

use cargo_scripts::paths::{relative_to_root, same_path};
use cargo_scripts::workspace::{
    modify_workspace_manifest, normalize_template_manifest, rename_package_manifest, WsError,
};

#[test]
fn add_existing_entry_is_noop() {
    let doc = "[workspace]\nmembers = [\"a\"]\nexclude = []\n";
    let out = modify_workspace_manifest(doc, Some("a"), None, None, None, "/w").unwrap();
    assert_eq!(out, doc);
}

#[test]
fn add_new_entry_appends_only_to_the_array() {
    let doc = "[workspace]\nmembers = [\"a\"]\nexclude = []\n";
    let out = modify_workspace_manifest(doc, Some("b"), None, None, None, "/w").unwrap();
    assert_eq!(out, "[workspace]\nmembers = [\"a\", \"b\"]\nexclude = []\n");
}

#[test]
fn remove_entry_leaves_the_rest() {
    let doc = "[workspace]\nmembers = [\"a\", \"b\"]\nexclude = []\n";
    let out = modify_workspace_manifest(doc, None, Some("a"), None, None, "/w").unwrap();
    assert_eq!(out, "[workspace]\nmembers = [\"b\"]\nexclude = []\n");
}

#[test]
fn remove_absent_entry_is_noop() {
    let doc = "[workspace]\nmembers = [\"a\"]\nexclude = []\n";
    let out = modify_workspace_manifest(doc, None, Some("zzz"), None, None, "/w").unwrap();
    assert_eq!(out, doc);
}

#[test]
fn differently_spelled_equal_entry_is_a_duplicate() {
    let doc = "[workspace]\nmembers = [\"./a\"]\nexclude = []\n";
    let out = modify_workspace_manifest(doc, Some("a"), None, None, None, "/w").unwrap();
    assert_eq!(out, doc);
}

#[test]
fn absolute_candidate_is_relativised() {
    let doc = "[workspace]\nmembers = []\nexclude = []\n";
    let out = modify_workspace_manifest(doc, Some("/w/pkg"), None, None, None, "/w").unwrap();
    assert_eq!(out, "[workspace]\nmembers = [\"pkg\"]\nexclude = []\n");
}

#[test]
fn comments_and_spacing_survive_edits() {
    let doc = "# top comment\n[workspace]\nmembers = [\"a\"]  # keep me\nexclude = []\n\n[patch]\nx = 1\n";
    let out = modify_workspace_manifest(doc, Some("b"), None, None, None, "/w").unwrap();
    assert_eq!(
        out,
        "# top comment\n[workspace]\nmembers = [\"a\", \"b\"]  # keep me\nexclude = []\n\n[patch]\nx = 1\n"
    );
}

#[test]
fn missing_list_is_created() {
    let doc = "[workspace]\nexclude = []\n";
    let out = modify_workspace_manifest(doc, Some("a"), None, None, None, "/w").unwrap();
    assert!(out.contains("members"));
    assert!(out.contains("\"a\""));
}

#[test]
fn non_array_list_is_refused() {
    let doc = "[workspace]\nmembers = \"oops\"\n";
    let r = modify_workspace_manifest(doc, Some("a"), None, None, None, "/w");
    assert_eq!(r, Err(WsError::NotAnArray));
}

#[test]
fn unparsable_document_is_refused() {
    let r = modify_workspace_manifest("= not toml =", Some("a"), None, None, None, "/w");
    assert_eq!(r, Err(WsError::Parse));
}

#[test]
fn move_between_lists_in_one_call() {
    let doc = "[workspace]\nmembers = [\"a\"]\nexclude = []\n";
    let out = modify_workspace_manifest(doc, None, Some("a"), Some("a"), None, "/w").unwrap();
    assert_eq!(out, "[workspace]\nmembers = []\nexclude = [\"a\"]\n");
}

#[test]
fn rename_package_keeps_the_rest() {
    let doc = "[package]\nname = \"old\" # c\nversion = \"1.0.0\"\n";
    let (old, out) = rename_package_manifest(doc, "new").unwrap();
    assert_eq!(old, "old");
    assert_eq!(out, "[package]\nname = \"new\" # c\nversion = \"1.0.0\"\n");
}

#[test]
fn rename_package_without_name_is_refused() {
    let doc = "[package]\nversion = \"1.0.0\"\n";
    let r = rename_package_manifest(doc, "new");
    assert_eq!(r, Err(WsError::NotAString));
}

#[test]
fn normalize_template_pins_version_and_publish() {
    let doc = "[package]\nname = \"template\"\nversion = \"0.1.0\"\nedition = \"2021\"\n";
    let (old_version, out) = normalize_template_manifest(doc).unwrap();
    assert_eq!(old_version, Some("0.1.0".to_string()));
    assert!(out.contains("version = \"0.0.0\""));
    assert!(out.contains("publish = false"));
    assert!(out.contains("name = \"template\""));
    assert!(out.contains("edition = \"2021\""));
}

#[test]
fn same_path_resolves_against_the_root() {
    assert!(same_path("/w", "a", "./a"));
    assert!(same_path("/w", "a/b", "a//b"));
    assert!(same_path("/w", "/w/a", "a"));
    assert!(!same_path("/w", "a", "b"));
    assert!(!same_path("/w", "/x/a", "a"));
}

#[test]
fn relative_to_root_strips_the_prefix() {
    assert_eq!(relative_to_root("/w/pkg", "/w"), "pkg");
    assert_eq!(relative_to_root("/w/a/b", "/w"), "a/b");
    assert_eq!(relative_to_root("/other/pkg", "/w"), "/other/pkg");
    assert_eq!(relative_to_root("pkg", "/w"), "pkg");
}
