//! Scenario tests for the embedded-manifest transcoder: extraction,
//! injection, and the byte-faithful round trip between them.

use cargo_scripts::fence::ScriptError;
use cargo_scripts::ops::{merge_script, split_script, SplitError};
use cargo_scripts::splice::{extract, inject, inject_into_source, merge_source, skeleton_text};

fn v(s: &str) -> Vec<u8> {
    s.as_bytes().to_vec()
}

#[test]
fn extract_simple_script() {
    let src = v("#!/usr/bin/env x\n//! hi\n//! ```cargo\n//! foo = 1\n//! ```\nfn main(){}\n");
    let ex = extract(&src).unwrap();
    assert_eq!(ex.manifest, v("foo = 1\n"));
    let residual = skeleton_text(&ex.skeleton);
    assert_eq!(residual, v("#!/usr/bin/env x\n//! hi\n//!\nfn main(){}\n"));
}

#[test]
fn reinject_into_residual_restores_original() {
    let original = v("#!/usr/bin/env x\n//! hi\n//! ```cargo\n//! foo = 1\n//! ```\nfn main(){}\n");
    let ex = extract(&original).unwrap();
    let residual = skeleton_text(&ex.skeleton);
    let back = inject_into_source(&ex.manifest, &residual).unwrap();
    assert_eq!(back, original);
}

#[test]
fn skeleton_round_trip_is_byte_faithful() {
    let original = v(
        "//! A script with text before the fence.\n//!\n//! ```cargo\n//! [dependencies]\n//! serde = \"1\"\n//! ```\nfn main() {}\n",
    );
    let ex = extract(&original).unwrap();
    assert_eq!(ex.manifest, v("[dependencies]\nserde = \"1\"\n"));
    let back = inject(&ex.manifest, &ex.skeleton);
    assert_eq!(back, original);
}

#[test]
fn two_fences_are_ambiguous() {
    let src = v(
        "//! ```cargo\n//! a = 1\n//! ```\n//!\n//! ```cargo\n//! b = 2\n//! ```\nfn main(){}\n",
    );
    let r = extract(&src);
    assert!(matches!(r, Err(ScriptError::MultipleFencesAmbiguous)));
}

#[test]
fn no_fence_is_reported() {
    let src = v("//! just a doc comment\nfn main(){}\n");
    let r = extract(&src);
    assert!(matches!(r, Err(ScriptError::FenceNotFound)));
}

#[test]
fn directive_without_doc_comment_has_no_fence() {
    let src = v("#!/usr/bin/env x\nfn main(){}\n");
    let r = extract(&src);
    assert!(matches!(r, Err(ScriptError::FenceNotFound)));
}

#[test]
fn non_utf8_source_is_reported() {
    let mut src = v("//! ```cargo\n//! a = 1\n//! ```\nfn main(){}\n");
    src.push(0xFF);
    src.push(0xFE);
    let r = extract(&src);
    assert!(matches!(r, Err(ScriptError::NonUtf8Source)));
}

#[test]
fn grammar_rejection_is_reported() {
    let src = v("//! ```cargo\n//! a = 1\n//! ```\nfn main( {\n");
    let r = extract(&src);
    assert!(matches!(r, Err(ScriptError::MalformedSource)));
}

#[test]
fn two_line_manifest_survives_inject_then_extract() {
    let residual = v("//! doc\n//!\nfn main(){}\n");
    let manifest = v("a\nb\n");
    let merged = inject_into_source(&manifest, &residual).unwrap();
    assert_eq!(merged, v("//! doc\n//! ```cargo\n//! a\n//! b\n//! ```\nfn main(){}\n"));
    let ex = extract(&merged).unwrap();
    assert_eq!(ex.manifest, manifest);
    assert_eq!(skeleton_text(&ex.skeleton), residual);
}

#[test]
fn injection_adds_manifest_lines_plus_markers() {
    let residual = v("//! one\n//!\nfn main(){}\n");
    let manifest = v("x = 1\ny = 2\nz = 3\n");
    let merged = inject_into_source(&manifest, &residual).unwrap();
    // The doc run had 2 lines; the splice point is replaced by 3 manifest
    // lines plus the two fence markers.
    let doc_lines = merged
        .split(|b| *b == b'\n')
        .filter(|l| l.starts_with(b"//!"))
        .count();
    assert_eq!(doc_lines, 2 - 1 + 3 + 2);
    let ex = extract(&merged).unwrap();
    assert_eq!(ex.manifest, manifest);
}

#[test]
fn empty_manifest_injects_placeholder() {
    let residual = v("//! doc\n//!\nfn main(){}\n");
    let merged = inject_into_source(&v(""), &residual).unwrap();
    assert_eq!(
        merged,
        v("//! doc\n//! ```cargo\n//! # Leave blank.\n//! ```\nfn main(){}\n")
    );
}

#[test]
fn manifest_without_trailing_newline_gains_one() {
    let residual = v("//!\nfn main(){}\n");
    let merged = inject_into_source(&v("a = 1"), &residual).unwrap();
    assert_eq!(merged, v("//! ```cargo\n//! a = 1\n//! ```\nfn main(){}\n"));
}

#[test]
fn inject_without_splice_point_is_reported() {
    let residual = v("//! no empty line here\nfn main(){}\n");
    let r = inject_into_source(&v("a = 1\n"), &residual);
    assert!(matches!(r, Err(ScriptError::FenceNotFound)));
}

#[test]
fn locality_outside_the_fence() {
    let original = v(
        "#!/usr/bin/env run\n//! before\n//! ```cargo\n//! m = 1\n//! ```\n//! after\nfn main(){}\n// trailing comment\n",
    );
    let ex = extract(&original).unwrap();
    let residual = skeleton_text(&ex.skeleton);
    assert_eq!(
        residual,
        v("#!/usr/bin/env run\n//! before\n//!\n//! after\nfn main(){}\n// trailing comment\n")
    );
}

#[test]
fn merge_source_replaces_content_in_place() {
    let src = v("//! ```cargo\n//! # Leave blank.\n//! ```\nfn main(){}\n");
    let merged = merge_source(&src, &v("dep = \"2\"\n")).unwrap();
    assert_eq!(merged, v("//! ```cargo\n//! dep = \"2\"\n//! ```\nfn main(){}\n"));
}

#[test]
fn merge_script_splices_into_residual() {
    let residual = v("//! hi\n//!\nfn main(){}\n");
    let merged = merge_script(&residual, &v("k = 1\n")).unwrap();
    assert_eq!(merged, v("//! hi\n//! ```cargo\n//! k = 1\n//! ```\nfn main(){}\n"));
}

#[test]
fn split_script_reads_package_name() {
    let src = v(
        "//! ```cargo\n//! [package]\n//! name = \"hello\"\n//! version = \"0.1.0\"\n//! ```\nfn main(){}\n",
    );
    let out = split_script(&src).unwrap();
    assert_eq!(out.package_name, "hello");
    assert_eq!(out.manifest, v("[package]\nname = \"hello\"\nversion = \"0.1.0\"\n"));
    assert_eq!(out.main_rs, v("//!\nfn main(){}\n"));
}

#[test]
fn split_script_missing_package_name() {
    let src = v("//! ```cargo\n//! [dependencies]\n//! ```\nfn main(){}\n");
    let r = split_script(&src);
    assert!(matches!(r, Err(SplitError::MissingPackageName)));
}

#[test]
fn split_script_bad_manifest() {
    let src = v("//! ```cargo\n//! = nonsense =\n//! ```\nfn main(){}\n");
    let r = split_script(&src);
    assert!(matches!(r, Err(SplitError::ManifestParse)));
}

#[test]
fn template_round_trips() {
    let template = cargo_scripts::ops::template_main_rs().as_bytes().to_vec();
    let ex = extract(&template).unwrap();
    assert_eq!(ex.manifest, v("# Leave blank.\n"));
    let back = inject(&ex.manifest, &ex.skeleton);
    assert_eq!(back, template);
}

#[test]
fn tag_must_match_exactly() {
    let src = v("//! ```cargo extra\n//! x = 1\n//! ```\nfn main(){}\n");
    assert!(matches!(extract(&src), Err(ScriptError::FenceNotFound)));
}

#[test]
fn other_fences_are_ignored() {
    let src = v(
        "//! ```text\n//! prose\n//! ```\n//!\n//! ```cargo\n//! m = 1\n//! ```\nfn main(){}\n",
    );
    let ex = extract(&src).unwrap();
    assert_eq!(ex.manifest, v("m = 1\n"));
}

#[test]
fn inner_attribute_is_not_a_directive() {
    let src = v("#![allow(dead_code)]\nfn main(){}\n");
    assert!(matches!(extract(&src), Err(ScriptError::FenceNotFound)));
}

#[test]
fn marker_without_space_still_parses() {
    let src = v("//!```cargo\n//!m = 1\n//!```\nfn main(){}\n");
    let ex = extract(&src).unwrap();
    assert_eq!(ex.manifest, v("m = 1\n"));
    assert_eq!(skeleton_text(&ex.skeleton), v("//!\nfn main(){}\n"));
}

#[test]
fn empty_fence_has_no_content_to_extract() {
    let src = v("//! ```cargo\n//! ```\nfn main(){}\n");
    assert!(matches!(extract(&src), Err(ScriptError::FenceNotFound)));
}

#[test]
fn empty_fence_does_not_capture_later_text() {
    // The only reserved fence is empty; a paragraph and another code
    // block follow. Nothing must be mistaken for the fence's content.
    let src = v(
        "//! ```cargo\n//! ```\n//!\n//! some prose\n//!\n//! ```text\n//! other = 1\n//! ```\nfn main(){}\n",
    );
    assert!(matches!(extract(&src), Err(ScriptError::FenceNotFound)));
}

#[test]
fn empty_fence_then_second_fence_is_ambiguous() {
    let src = v("//! ```cargo\n//! ```\n//!\n//! ```cargo\n//! b = 2\n//! ```\nfn main(){}\n");
    assert!(matches!(extract(&src), Err(ScriptError::MultipleFencesAmbiguous)));
}

#[test]
fn attribute_after_bare_shebang_prefix_is_not_a_directive() {
    // `#!` followed by a line break and `[` opens an inner attribute, not
    // an interpreter directive; the parser classifies it like the grammar.
    let src = v("#!\n[allow(dead_code)]\nfn main(){}\n");
    let f = cargo_scripts::script::parse_script(&src);
    assert!(f.directive.is_none());
    assert_eq!(cargo_scripts::script::render_script(&f), src);
}

#[test]
fn interpreter_line_is_a_directive() {
    let src = v("#!/usr/bin/env x\nfn main(){}\n");
    let f = cargo_scripts::script::parse_script(&src);
    assert_eq!(f.directive, Some(v("#!/usr/bin/env x")));
}
