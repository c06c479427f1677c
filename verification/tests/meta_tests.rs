//! Tests for the metadata, snippet-store and configuration decisions.

use cargo_scripts::config::{abbreviate_home, expand_tilde, CargoScriptsConfig};
use cargo_scripts::meta::{
    check_virtual, find_default_bin, find_package, plan_push, select_rust_file, GistError,
    GistFile, Metadata, MetaError, PackageMeta, PushError, PushPlan, TargetMeta,
};

fn target(name: &str, kinds: &[&str]) -> TargetMeta {
    TargetMeta {
        name: name.to_string(),
        kinds: kinds.iter().map(|k| k.to_string()).collect(),
        src_path: format!("/w/{}/src/main.rs", name),
    }
}

fn metadata() -> Metadata {
    Metadata {
        workspace_root: "/w".to_string(),
        packages: vec![
            PackageMeta {
                name: "alpha".to_string(),
                manifest_path: "/w/alpha/Cargo.toml".to_string(),
                targets: vec![target("alpha", &["bin"])],
            },
            PackageMeta {
                name: "beta".to_string(),
                manifest_path: "/w/beta/Cargo.toml".to_string(),
                targets: vec![target("beta", &["lib"])],
            },
        ],
        resolve_root: None,
    }
}

#[test]
fn find_package_by_name() {
    let md = metadata();
    assert_eq!(find_package(&md, "beta"), Ok(1));
    assert_eq!(find_package(&md, "gamma"), Err(MetaError::NoSuchPackage));
}

#[test]
fn virtual_workspace_check() {
    let mut md = metadata();
    assert_eq!(check_virtual(&md), Ok(()));
    md.resolve_root = Some("alpha 0.1.0".to_string());
    assert_eq!(check_virtual(&md), Err(MetaError::NotVirtual));
}

#[test]
fn single_bin_target_is_found() {
    let targets = vec![target("a", &["bin"]), target("b", &["lib"])];
    assert_eq!(find_default_bin(&targets, None), Ok(0));
}

#[test]
fn no_bin_target_is_reported() {
    let targets = vec![target("a", &["lib"])];
    assert_eq!(find_default_bin(&targets, None), Err(MetaError::NoTarget));
}

#[test]
fn several_bin_targets_are_ambiguous() {
    let targets = vec![target("a", &["bin"]), target("b", &["bin"])];
    assert_eq!(find_default_bin(&targets, None), Err(MetaError::AmbiguousTarget));
}

#[test]
fn default_run_disambiguates() {
    let targets = vec![target("a", &["bin"]), target("b", &["bin"])];
    let d = "b".to_string();
    assert_eq!(find_default_bin(&targets, Some(&d)), Ok(1));
}

fn gist_file(name: &str, truncated: bool) -> GistFile {
    GistFile { filename: name.to_string(), truncated, content: "fn main(){}".to_string() }
}

#[test]
fn unique_rust_file_is_selected() {
    let files = vec![gist_file("notes.md", false), gist_file("hello.rs", false)];
    assert_eq!(select_rust_file(&files), Ok(1));
}

#[test]
fn crs_extension_counts_as_rust() {
    let files = vec![gist_file("hello.crs", false)];
    assert_eq!(select_rust_file(&files), Ok(0));
}

#[test]
fn no_rust_file_is_reported() {
    let files = vec![gist_file("notes.md", false), gist_file(".rs", false)];
    assert_eq!(select_rust_file(&files), Err(GistError::NoRustFiles));
}

#[test]
fn several_rust_files_are_ambiguous() {
    let files = vec![gist_file("a.rs", false), gist_file("b.crs", false)];
    assert_eq!(select_rust_file(&files), Err(GistError::MultipleRustFiles));
}

#[test]
fn truncated_selection_is_reported() {
    let files = vec![gist_file("a.rs", true)];
    assert_eq!(select_rust_file(&files), Err(GistError::Truncated));
}

#[test]
fn push_with_matching_remote_is_up_to_date() {
    let id = "abc".to_string();
    let code = "fn main(){}".to_string();
    let desc = "old".to_string();
    let plan = plan_push("pkg", false, false, None, Some((&id, &code, &desc)), "fn main(){}");
    assert!(matches!(plan, Ok(PushPlan::UpToDate)));
}

#[test]
fn push_with_changed_remote_updates() {
    let id = "abc".to_string();
    let code = "old code".to_string();
    let desc = "remote words".to_string();
    let plan = plan_push("pkg", false, false, None, Some((&id, &code, &desc)), "new code");
    match plan {
        Ok(PushPlan::Update { gist_id, description, filename }) => {
            assert_eq!(gist_id, "abc");
            assert_eq!(description, "remote words");
            assert_eq!(filename, "pkg.rs");
        },
        other => panic!("unexpected plan: {:?}", matches!(other, Ok(PushPlan::UpToDate))),
    }
}

#[test]
fn push_without_record_needs_upstream() {
    let plan = plan_push("pkg", false, false, None, None, "code");
    assert!(matches!(plan, Err(PushError::NeedSetUpstream)));
}

#[test]
fn push_creation_honours_privacy_and_description() {
    let d = "words".to_string();
    let plan = plan_push("pkg", true, true, Some(&d), None, "code");
    match plan {
        Ok(PushPlan::Create { public, description, filename }) => {
            assert!(!public);
            assert_eq!(description, "words");
            assert_eq!(filename, "pkg.rs");
        },
        _ => panic!("expected a creation plan"),
    }
}

#[test]
fn config_gist_ids_behave_like_a_map() {
    let mut cfg = CargoScriptsConfig {
        base: "./template".to_string(),
        github_token_path: "~/token".to_string(),
        gist_ids: Vec::new(),
    };
    assert_eq!(cfg.get_gist_id("a"), None);
    cfg.set_gist_id("a", "1");
    cfg.set_gist_id("b", "2");
    assert_eq!(cfg.get_gist_id("a"), Some("1".to_string()));
    cfg.set_gist_id("a", "3");
    assert_eq!(cfg.get_gist_id("a"), Some("3".to_string()));
    assert_eq!(cfg.get_gist_id("b"), Some("2".to_string()));
    assert_eq!(cfg.gist_ids.len(), 2);
    cfg.remove_gist_id("a");
    assert_eq!(cfg.get_gist_id("a"), None);
    assert_eq!(cfg.get_gist_id("b"), Some("2".to_string()));
    cfg.remove_gist_id("zzz");
    assert_eq!(cfg.gist_ids.len(), 1);
}

#[test]
fn tilde_expansion() {
    let home = "/home/u".to_string();
    assert_eq!(expand_tilde("~/x", Some(&home)), "/home/u/x");
    assert_eq!(expand_tilde("~", Some(&home)), "/home/u");
    assert_eq!(expand_tilde("~user/x", Some(&home)), "~user/x");
    assert_eq!(expand_tilde("/abs", Some(&home)), "/abs");
    assert_eq!(expand_tilde("~/x", None), "~/x");
}

#[test]
fn home_abbreviation() {
    assert_eq!(abbreviate_home("/home/u/data/token", "/home/u"), "~/data/token");
    assert_eq!(abbreviate_home("/elsewhere/token", "/home/u"), "/elsewhere/token");
    assert_eq!(abbreviate_home("/home/u/data", ""), "/home/u/data");
}
