//! The two high-level transcoding operations, composed from the verified
//! pieces: splitting a script into manifest plus residual source, and
//! merging a package's manifest back into its source.

use vstd::prelude::*;

use crate::fence::ScriptError;
use crate::splice::{extract, extract_spec, inject_into_source, inject_into_spec, merge_source,
    replace_spec, Extraction};
use crate::workspace::{get_pkg_str, parse_toml, pkg_field, toml_accepts, toml_doc_of};
use vstd::utf8::{decode_utf8, valid_utf8};

verus! {

/// Why splitting a script failed.
#[derive(Debug, Clone, Copy, PartialEq, Eq, Structural)]
pub enum SplitError {
    /// The transcoder could not take the script apart.
    Script(ScriptError),
    /// The embedded manifest is not valid TOML (or not UTF-8).
    ManifestParse,
    /// The embedded manifest names no package.
    MissingPackageName,
}

/// What splitting a script yields: the package it declares, its manifest
/// text, and the residual source file.
pub struct SplitScript {
    /// The name the manifest declares under its package section.
    pub package_name: String,
    /// The manifest text cut out of the doc comment.
    pub manifest: Vec<u8>,
    /// The residual source: the script with the fence block removed.
    pub main_rs: Vec<u8>,
}

/// Splits a script into its embedded manifest and residual source. The
/// extraction errors are those of `extract_spec`; past extraction, the
/// manifest must be TOML naming a package, and the residual source is the
/// skeleton rendered back to bytes.
pub fn split_script(script: &Vec<u8>) -> (r: Result<SplitScript, SplitError>)
    ensures
        extract_spec(script@) matches Err(e) ==> r == Err::<SplitScript, SplitError>(
            SplitError::Script(e),
        ),
        extract_spec(script@) matches Ok(ex) ==> {
            &&& !valid_utf8(ex.manifest) ==> r == Err::<SplitScript, SplitError>(
                SplitError::ManifestParse,
            )
            &&& valid_utf8(ex.manifest) && !toml_accepts(decode_utf8(ex.manifest)) ==> r == Err::<
                SplitScript,
                SplitError,
            >(SplitError::ManifestParse)
            &&& valid_utf8(ex.manifest) && toml_accepts(decode_utf8(ex.manifest)) ==> {
                let name = pkg_field(toml_doc_of(decode_utf8(ex.manifest)), "name"@);
                match name {
                    None => r == Err::<SplitScript, SplitError>(SplitError::MissingPackageName),
                    Some(n) => r matches Ok(out) && out.package_name@ == n && out.manifest@
                        == ex.manifest && out.main_rs@ == crate::script::render_spec(
                        ex.skeleton.file,
                    ),
                }
            }
        },
{
    let ex: Extraction = match extract(script) {
        Ok(ex) => ex,
        Err(e) => {
            return Err(SplitError::Script(e));
        },
    };
    let manifest_text = match crate::bytes_util::bytes_to_string(&ex.manifest) {
        Some(t) => t,
        None => {
            return Err(SplitError::ManifestParse);
        },
    };
    let doc = match parse_toml(manifest_text.as_str()) {
        Some(d) => d,
        None => {
            return Err(SplitError::ManifestParse);
        },
    };
    let package_name = match get_pkg_str(&doc, "name") {
        Some(n) => n,
        None => {
            return Err(SplitError::MissingPackageName);
        },
    };
    let main_rs = crate::splice::skeleton_text(&ex.skeleton);
    Ok(SplitScript { package_name, manifest: ex.manifest, main_rs })
}

/// Reads the `package.default-run` declaration of a manifest text, for
/// choosing the target to export. `None` when the text is not TOML, or
/// declares none.
pub fn read_default_run(text: &str) -> (r: Option<String>)
    ensures
        !toml_accepts(text@) ==> r is None,
        toml_accepts(text@) ==> {
            let f = pkg_field(toml_doc_of(text@), "default-run"@);
            &&& (r is Some) == (f is Some)
            &&& (r is Some ==> r->Some_0@ == f->Some_0)
        },
{
    match parse_toml(text) {
        Some(d) => get_pkg_str(&d, "default-run"),
        None => None,
    }
}

/// Merges a manifest into a source file: when the source still embeds a
/// reserved fence, its content is replaced in place; when it is a
/// residual without one, the fence block is spliced back in at the last
/// empty doc line.
pub fn merge_script(src: &Vec<u8>, manifest: &Vec<u8>) -> (r: Result<Vec<u8>, ScriptError>)
    ensures
        replace_spec(src@, manifest@) matches Ok(out) ==> r matches Ok(v) && v@ == out,
        replace_spec(src@, manifest@) matches Err(e) ==> {
            &&& e != ScriptError::FenceNotFound ==> r == Err::<Vec<u8>, ScriptError>(e)
            &&& e == ScriptError::FenceNotFound ==> match inject_into_spec(manifest@, src@) {
                Ok(out) => r matches Ok(v) && v@ == out,
                Err(e2) => r == Err::<Vec<u8>, ScriptError>(e2),
            }
        },
{
    match merge_source(src, manifest) {
        Ok(v) => Ok(v),
        Err(e) => {
            if e == ScriptError::FenceNotFound {
                inject_into_source(manifest, src)
            } else {
                Err(e)
            }
        },
    }
}

/// The workspace manifest a freshly initialised workspace starts with:
/// the template as only member, nothing excluded.
pub fn workspace_manifest_template() -> (r: &'static str)
    ensures
        r@ == "[workspace]\nmembers = [\"template\"]\nexclude = []\n"@,
{
    "[workspace]\nmembers = [\"template\"]\nexclude = []\n"
}

/// The template's source file: a script skeleton whose doc comment embeds
/// one reserved fence holding the placeholder manifest, so a fresh
/// template already satisfies what extraction expects.
pub fn template_main_rs() -> (r: &'static str)
    ensures
        r@ == "#!/usr/bin/env run-cargo-script\n//! This is a regular crate doc comment, but it also contains a partial\n//! Cargo manifest.  Note the use of a *fenced* code block, and the\n//! `cargo` \"language\".\n//!\n//! ```cargo\n//! # Leave blank.\n//! ```\n\nfn main() {\n    todo!();\n}\n"@,
{
    "#!/usr/bin/env run-cargo-script\n//! This is a regular crate doc comment, but it also contains a partial\n//! Cargo manifest.  Note the use of a *fenced* code block, and the\n//! `cargo` \"language\".\n//!\n//! ```cargo\n//! # Leave blank.\n//! ```\n\nfn main() {\n    todo!();\n}\n"
}

} // verus!
