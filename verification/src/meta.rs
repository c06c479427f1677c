//! Models of the build tool's metadata, the remote snippet store's file
//! listing, and the tool's own configuration, together with the verified
//! decisions made over them: which package a name picks, which target a
//! package runs, which remote file holds the code, and what a push should
//! do. The data arrives from outside collaborators as plain values; every
//! rule applied to it is verified here.

use vstd::prelude::*;

verus! {

/// Why a metadata-level decision failed.
#[derive(Debug, Clone, Copy, PartialEq, Eq, Structural)]
pub enum MetaError {
    /// No package of the requested name exists in the workspace.
    NoSuchPackage,
    /// The workspace manifest names a root package, so it is not virtual.
    NotVirtual,
    /// The package has no runnable target to export.
    NoTarget,
    /// More than one runnable target qualifies and none is declared the
    /// default.
    AmbiguousTarget,
}

/// One build target of a package.
pub struct TargetMeta {
    /// The target's name.
    pub name: String,
    /// The target's kinds, `bin` among them for a runnable one.
    pub kinds: Vec<String>,
    /// Path of the target's root source file.
    pub src_path: String,
}

/// One package of the workspace.
pub struct PackageMeta {
    /// The package's name.
    pub name: String,
    /// Path of the package's manifest file.
    pub manifest_path: String,
    /// The package's build targets.
    pub targets: Vec<TargetMeta>,
}

/// What the transcoder needs from the build tool's workspace metadata.
pub struct Metadata {
    /// The workspace root directory.
    pub workspace_root: String,
    /// The workspace's packages.
    pub packages: Vec<PackageMeta>,
    /// The root package of the dependency resolution, if the metadata
    /// names one; a virtual workspace has none.
    pub resolve_root: Option<String>,
}

/// A virtual workspace is required: one whose metadata names no root
/// package.
pub fn check_virtual(md: &Metadata) -> (r: Result<(), MetaError>)
    ensures
        (r is Ok) == (md.resolve_root is None),
        r is Err ==> r->Err_0 == MetaError::NotVirtual,
{
    match &md.resolve_root {
        None => Ok(()),
        Some(_) => Err(MetaError::NotVirtual),
    }
}

/// Index of the first package with the given name.
pub open spec fn find_package_from(pkgs: Seq<PackageMeta>, name: Seq<char>, i: int) -> Option<int>
    decreases pkgs.len() - i when 0 <= i <= pkgs.len()
{
    if i >= pkgs.len() {
        None
    } else if pkgs[i].name@ == name {
        Some(i)
    } else {
        find_package_from(pkgs, name, i + 1)
    }
}

/// Picks the package of the given name out of the metadata: the first
/// with that name, `NoSuchPackage` when there is none.
pub fn find_package(md: &Metadata, name: &str) -> (r: Result<usize, MetaError>)
    ensures
        match r {
            Ok(i) => find_package_from(md.packages@, name@, 0) == Some(i as int) && i
                < md.packages@.len(),
            Err(e) => e == MetaError::NoSuchPackage && find_package_from(
                md.packages@,
                name@,
                0,
            ) is None,
        },
{
    let mut i: usize = 0;
    while i < md.packages.len()
        invariant
            i <= md.packages@.len(),
            find_package_from(md.packages@, name@, 0) == find_package_from(
                md.packages@,
                name@,
                i as int,
            ),
        decreases md.packages.len() - i,
    {
        if crate::paths::str_eq(md.packages[i].name.as_str(), name) {
            assert(md.packages@[i as int].name@ == name@);
            return Ok(i);
        }
        assert(md.packages@[i as int].name@ != name@);
        i += 1;
    }
    Err(MetaError::NoSuchPackage)
}

/// Whether a target is runnable: one of its kinds is `bin`.
pub open spec fn is_bin(t: TargetMeta) -> bool {
    exists|i: int| 0 <= i < t.kinds@.len() && (#[trigger] t.kinds@[i])@ == "bin"@
}

/// Whether a target qualifies for export: runnable, and named by the
/// declared default when there is one.
pub open spec fn is_candidate(t: TargetMeta, default_run: Option<Seq<char>>) -> bool {
    is_bin(t) && match default_run {
        Some(d) => t.name@ == d,
        None => true,
    }
}

/// How many targets qualify.
pub open spec fn candidate_count(ts: Seq<TargetMeta>, default_run: Option<Seq<char>>) -> int
    decreases ts.len(),
{
    if ts.len() == 0 {
        0
    } else {
        candidate_count(ts.drop_last(), default_run) + if is_candidate(ts.last(), default_run) {
            1int
        } else {
            0int
        }
    }
}

fn target_is_bin(t: &TargetMeta) -> (r: bool)
    ensures
        r == is_bin(*t),
{
    let mut i: usize = 0;
    while i < t.kinds.len()
        invariant
            i <= t.kinds@.len(),
            forall|j: int| 0 <= j < i ==> (#[trigger] t.kinds@[j])@ != "bin"@,
        decreases t.kinds.len() - i,
    {
        if crate::paths::str_eq(t.kinds[i].as_str(), "bin") {
            assert(is_bin(*t));
            return true;
        }
        i += 1;
    }
    false
}

/// Selects the one target to export: the unique runnable target, or the
/// unique one named by `default_run` when that is set. None qualifying is
/// `NoTarget`; several are `AmbiguousTarget`, never an arbitrary pick.
pub fn find_default_bin(targets: &Vec<TargetMeta>, default_run: Option<&String>) -> (r: Result<
    usize,
    MetaError,
>)
    ensures
        ({
            let dr = match default_run {
                Some(d) => Some(d@),
                None => None,
            };
            match r {
                Ok(i) => candidate_count(targets@, dr) == 1 && i < targets@.len() && is_candidate(
                    targets@[i as int],
                    dr,
                ),
                Err(e) => (e == MetaError::NoTarget && candidate_count(targets@, dr) == 0) || (e
                    == MetaError::AmbiguousTarget && candidate_count(targets@, dr) >= 2),
            }
        }),
{
    let ghost dr: Option<Seq<char>> = match default_run {
        Some(d) => Some(d@),
        None => None,
    };
    let mut found: Option<usize> = None;
    let mut i: usize = 0;
    proof {
        assert(targets@.subrange(0, 0) =~~= Seq::<TargetMeta>::empty());
    }
    while i < targets.len()
        invariant
            i <= targets@.len(),
            dr == (match default_run {
                Some(d) => Some(d@),
                None => None,
            }),
            match found {
                Some(w) => w < i && candidate_count(targets@.subrange(0, i as int), dr) == 1
                    && is_candidate(targets@[w as int], dr),
                None => candidate_count(targets@.subrange(0, i as int), dr) == 0,
            },
        decreases targets.len() - i,
    {
        let tib = target_is_bin(&targets[i]);
        let mut is_cand = false;
        if tib {
            match default_run {
                Some(d) => {
                    is_cand = crate::paths::str_eq(targets[i].name.as_str(), d.as_str());
                },
                None => {
                    is_cand = true;
                },
            }
        }
        proof {
            assert(is_cand == is_candidate(targets@[i as int], dr));
            assert(targets@.subrange(0, i + 1).drop_last() =~= targets@.subrange(0, i as int));
            assert(targets@.subrange(0, i + 1).last() == targets@[i as int]);
        }
        if is_cand {
            match found {
                None => {
                    found = Some(i);
                },
                Some(_) => {
                    proof {
                        lemma_candidate_count_mono(targets@, dr, i + 1);
                    }
                    return Err(MetaError::AmbiguousTarget);
                },
            }
        }
        i += 1;
    }
    proof {
        assert(targets@.subrange(0, targets@.len() as int) =~= targets@);
    }
    match found {
        Some(w) => Ok(w),
        None => Err(MetaError::NoTarget),
    }
}

proof fn lemma_candidate_count_mono(ts: Seq<TargetMeta>, dr: Option<Seq<char>>, i: int)
    requires
        0 <= i <= ts.len(),
    ensures
        candidate_count(ts, dr) >= candidate_count(ts.subrange(0, i), dr),
    decreases ts.len() - i,
{
    if i < ts.len() {
        lemma_candidate_count_mono(ts, dr, i + 1);
        assert(ts.subrange(0, i + 1).drop_last() =~= ts.subrange(0, i));
        assert(candidate_count(ts.subrange(0, i + 1), dr) >= candidate_count(
            ts.subrange(0, i),
            dr,
        ));
    } else {
        assert(ts.subrange(0, i) =~= ts);
    }
}

/// One file of a remote snippet ("gist") listing.
pub struct GistFile {
    /// The file's name.
    pub filename: String,
    /// Whether the listing truncated the file's content.
    pub truncated: bool,
    /// The file's content.
    pub content: String,
}

/// Why no code could be selected from a snippet listing.
#[derive(Debug, Clone, Copy, PartialEq, Eq, Structural)]
pub enum GistError {
    /// No file with a source-code extension.
    NoRustFiles,
    /// Several files with a source-code extension; none is picked.
    MultipleRustFiles,
    /// The selected file's content was truncated by the listing.
    Truncated,
}

/// Index of the last occurrence of `c` in `s`, if any.
pub open spec fn last_index_of(s: Seq<char>, c: char) -> Option<int>
    decreases s.len(),
{
    if s.len() == 0 {
        None
    } else if s.last() == c {
        Some(s.len() - 1)
    } else {
        last_index_of(s.drop_last(), c)
    }
}

pub proof fn lemma_last_index_of(s: Seq<char>, c: char)
    ensures
        match last_index_of(s, c) {
            Some(i) => 0 <= i < s.len() && s[i] == c && forall|j: int| i < j < s.len() ==> s[j]
                != c,
            None => forall|j: int| 0 <= j < s.len() ==> s[j] != c,
        },
    decreases s.len(),
{
    if s.len() > 0 && s.last() != c {
        lemma_last_index_of(s.drop_last(), c);
        assert(forall|j: int| 0 <= j < s.len() - 1 ==> s[j] == #[trigger] s.drop_last()[j]);
        match last_index_of(s.drop_last(), c) {
            Some(i) => {
                assert(s[i] == s.drop_last()[i]);
                assert forall|j: int| i < j < s.len() implies s[j] != c by {
                    if j < s.len() - 1 {
                        assert(s[j] == s.drop_last()[j]);
                    }
                }
            },
            None => {
                assert forall|j: int| 0 <= j < s.len() implies s[j] != c by {
                    if j < s.len() - 1 {
                        assert(s[j] == s.drop_last()[j]);
                    }
                }
            },
        }
    }
}

/// The file-name part of a path: everything after the last separator.
pub open spec fn file_part(s: Seq<char>) -> Seq<char> {
    match last_index_of(s, '/') {
        Some(i) => s.skip(i + 1),
        None => s,
    }
}

/// The extension of a file name: what follows the last dot, unless that
/// dot starts the name.
pub open spec fn ext_of(s: Seq<char>) -> Option<Seq<char>> {
    let f = file_part(s);
    match last_index_of(f, '.') {
        None => None,
        Some(i) => if i == 0 {
            None
        } else {
            Some(f.skip(i + 1))
        },
    }
}

/// Whether a file name carries one of the two source-code extensions.
pub open spec fn is_rust_file(name: Seq<char>) -> bool {
    ext_of(name) == Some("rs"@) || ext_of(name) == Some("crs"@)
}

fn last_char_position(s: &str, c: char) -> (r: Option<usize>)
    ensures
        match r {
            Some(i) => i < s@.len() && last_index_of(s@, c) == Some(i as int),
            None => last_index_of(s@, c) is None,
        },
{
    let n = s.unicode_len();
    let mut i: usize = n;
    proof {
        assert(s@.subrange(0, n as int) =~= s@);
    }
    while i > 0
        invariant
            i <= n,
            n == s@.len(),
            last_index_of(s@, c) == last_index_of(s@.subrange(0, i as int), c),
        decreases i,
    {
        if s.get_char(i - 1) == c {
            proof {
                assert(s@.subrange(0, i as int).last() == s@[i - 1]);
            }
            return Some(i - 1);
        }
        proof {
            assert(s@.subrange(0, i as int).last() == s@[i - 1]);
            assert(s@.subrange(0, i as int).drop_last() =~= s@.subrange(0, i - 1));
        }
        i -= 1;
    }
    proof {
        assert(s@.subrange(0, 0) =~= Seq::<char>::empty());
    }
    None
}

/// Decides whether a file name carries a source-code extension.
pub fn has_rust_extension(name: &str) -> (r: bool)
    ensures
        r == is_rust_file(name@),
{
    let n = name.unicode_len();
    let start: usize = match last_char_position(name, '/') {
        Some(i) => i + 1,
        None => 0,
    };
    let f = name.substring_char(start, n);
    proof {
        assert(f@ =~= file_part(name@));
    }
    let fn_len = f.unicode_len();
    match last_char_position(f, '.') {
        None => {
            assert(!is_rust_file(name@));
            false
        },
        Some(0) => {
            assert(!is_rust_file(name@));
            false
        },
        Some(i) => {
            let ext = f.substring_char(i + 1, fn_len);
            proof {
                assert(ext@ =~= ext_of(name@)->Some_0);
            }
            let r = crate::paths::str_eq(ext, "rs") || crate::paths::str_eq(ext, "crs");
            proof {
                if !r {
                    assert(ext_of(name@) != Some("rs"@) && ext_of(name@) != Some("crs"@));
                }
            }
            r
        },
    }
}

/// Index of the first file at or after `i` carrying a source-code
/// extension.
pub open spec fn first_rust_from(files: Seq<GistFile>, i: int) -> Option<int>
    decreases files.len() - i when 0 <= i <= files.len()
{
    if i >= files.len() {
        None
    } else if is_rust_file(files[i].filename@) {
        Some(i)
    } else {
        first_rust_from(files, i + 1)
    }
}

/// How many files of the listing carry a source-code extension.
pub open spec fn rust_file_count(files: Seq<GistFile>) -> int
    decreases files.len(),
{
    if files.len() == 0 {
        0
    } else {
        rust_file_count(files.drop_last()) + if is_rust_file(files.last().filename@) {
            1int
        } else {
            0int
        }
    }
}

proof fn lemma_rust_file_count_mono(files: Seq<GistFile>, i: int)
    requires
        0 <= i <= files.len(),
    ensures
        rust_file_count(files) >= rust_file_count(files.subrange(0, i)),
    decreases files.len() - i,
{
    if i < files.len() {
        lemma_rust_file_count_mono(files, i + 1);
        assert(files.subrange(0, i + 1).drop_last() =~= files.subrange(0, i));
        assert(rust_file_count(files.subrange(0, i + 1)) >= rust_file_count(
            files.subrange(0, i),
        ));
    } else {
        assert(files.subrange(0, i) =~= files);
    }
}

/// Selects the one source file of a snippet listing: exactly one file may
/// carry a source-code extension, and it must not be truncated. Zero and
/// several are distinct failures; several never silently picks one, and
/// `Truncated` comes exactly when the one qualifying file was cut short.
pub fn select_rust_file(files: &Vec<GistFile>) -> (r: Result<usize, GistError>)
    ensures
        match r {
            Ok(i) => rust_file_count(files@) == 1 && first_rust_from(files@, 0) == Some(i as int)
                && i < files@.len() && is_rust_file(files@[i as int].filename@)
                && !files@[i as int].truncated,
            Err(e) => (e == GistError::NoRustFiles && rust_file_count(files@) == 0) || (e
                == GistError::MultipleRustFiles && rust_file_count(files@) >= 2) || (e
                == GistError::Truncated && rust_file_count(files@) == 1 && (
            first_rust_from(files@, 0) matches Some(w) && files@[w].truncated)),
        },
{
    let mut found: Option<usize> = None;
    let mut i: usize = 0;
    proof {
        assert(files@.subrange(0, 0) =~= Seq::<GistFile>::empty());
    }
    while i < files.len()
        invariant
            i <= files@.len(),
            match found {
                Some(w) => w < i && rust_file_count(files@.subrange(0, i as int)) == 1
                    && is_rust_file(files@[w as int].filename@) && first_rust_from(files@, 0)
                    == Some(w as int),
                None => rust_file_count(files@.subrange(0, i as int)) == 0 && first_rust_from(
                    files@,
                    0,
                ) == first_rust_from(files@, i as int),
            },
        decreases files.len() - i,
    {
        let is_rust = has_rust_extension(files[i].filename.as_str());
        proof {
            assert(files@.subrange(0, i + 1).drop_last() =~= files@.subrange(0, i as int));
            assert(files@.subrange(0, i + 1).last() == files@[i as int]);
        }
        if is_rust {
            match found {
                None => {
                    proof {
                        assert(first_rust_from(files@, i as int) == Some(i as int));
                    }
                    found = Some(i);
                },
                Some(_) => {
                    proof {
                        lemma_rust_file_count_mono(files@, i + 1);
                    }
                    return Err(GistError::MultipleRustFiles);
                },
            }
        }
        i += 1;
    }
    proof {
        assert(files@.subrange(0, files@.len() as int) =~= files@);
    }
    match found {
        Some(w) => {
            if files[w].truncated {
                Err(GistError::Truncated)
            } else {
                Ok(w)
            }
        },
        None => Err(GistError::NoRustFiles),
    }
}

/// What a push to the remote snippet store should do.
pub enum PushPlan {
    /// The remote already holds the local code.
    UpToDate,
    /// Update the existing snippet.
    Update {
        /// The snippet to update.
        gist_id: String,
        /// The description to send: the requested one, or the remote's
        /// current description when none was requested.
        description: String,
        /// The file name the code is stored under.
        filename: String,
    },
    /// Create a new snippet.
    Create {
        /// Whether the new snippet is publicly visible.
        public: bool,
        /// The description to send; empty when none was requested.
        description: String,
        /// The file name the code is stored under.
        filename: String,
    },
}

/// Why no push plan could be made.
#[derive(Debug, Clone, Copy, PartialEq, Eq, Structural)]
pub enum PushError {
    /// No snippet is recorded for the package and creating one was not
    /// requested.
    NeedSetUpstream,
}

/// The file name a package's code is stored under remotely.
pub fn gist_file_name(package: &str) -> (r: String)
    ensures
        r@ == package@ + ".rs"@,
{
    let mut out = String::new();
    out.append(package);
    out.append(".rs");
    out
}

/// Decides what a push should do, from the recorded snippet id, the
/// fetched remote state, and the local code. With a known snippet the
/// plan is an update exactly when the remote code differs, under the
/// requested description or else the remote's. Without one, a creation
/// must have been requested explicitly; the new snippet is public unless
/// asked private, with the requested or empty description.
pub fn plan_push(
    package: &str,
    set_upstream: bool,
    private: bool,
    description: Option<&String>,
    remote: Option<(&String, &String, &String)>,
    local: &str,
) -> (r: Result<PushPlan, PushError>)
    ensures
        match remote {
            Some((id, code, desc)) => {
                &&& code@ == local@ ==> r == Ok::<PushPlan, PushError>(PushPlan::UpToDate)
                &&& code@ != local@ ==> (r matches Ok(p) && p matches PushPlan::Update {
                    gist_id,
                    description: d,
                    filename,
                } && gist_id@ == id@ && filename@ == package@ + ".rs"@ && d@ == (
                match description {
                    Some(want) => want@,
                    None => desc@,
                }))
            },
            None => {
                &&& !set_upstream ==> r == Err::<PushPlan, PushError>(PushError::NeedSetUpstream)
                &&& set_upstream ==> (r matches Ok(p) && p matches PushPlan::Create {
                    public,
                    description: d,
                    filename,
                } && public == !private && filename@ == package@ + ".rs"@ && d@ == (
                match description {
                    Some(want) => want@,
                    None => Seq::<char>::empty(),
                }))
            },
        },
{
    match remote {
        Some((id, code, desc)) => {
            if crate::paths::str_eq(code.as_str(), local) {
                Ok(PushPlan::UpToDate)
            } else {
                let d = match description {
                    Some(want) => String::from_str(want.as_str()),
                    None => String::from_str(desc.as_str()),
                };
                Ok(
                    PushPlan::Update {
                        gist_id: String::from_str(id.as_str()),
                        description: d,
                        filename: gist_file_name(package),
                    },
                )
            }
        },
        None => {
            if !set_upstream {
                Err(PushError::NeedSetUpstream)
            } else {
                let d = match description {
                    Some(want) => String::from_str(want.as_str()),
                    None => String::new(),
                };
                Ok(
                    PushPlan::Create {
                        public: !private,
                        description: d,
                        filename: gist_file_name(package),
                    },
                )
            }
        },
    }
}

} // verus!
