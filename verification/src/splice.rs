//! Cutting the manifest out of a script and splicing it back in.
//!
//! Extraction removes the whole reserved fence block (markers included)
//! from the doc-comment run, leaving a single empty doc line as the splice
//! point, and hands back the manifest text together with a skeleton that
//! remembers where the fence stood. Injection rebuilds the fence block at
//! that point. On a well-formed source the two are exact inverses, byte
//! for byte.

use vstd::prelude::*;

use crate::bytes_util::{joined, split_nl, NL};
use crate::fence::{md_events_of, scan, syn_accepts, ScanState, ScriptError};
use crate::script::{parse_spec, wf_view, ScriptFile, ScriptView};
use vstd::utf8::valid_utf8;

verus! {

/// Byte offset of line `i` inside the joined rendering of `lines`.
pub open spec fn line_start(lines: Seq<Seq<u8>>, i: int) -> int
    decreases i when i >= 0
{
    if i <= 0 {
        0
    } else {
        line_start(lines, i - 1) + lines[i - 1].len() + 1
    }
}

pub proof fn lemma_line_start_mono(lines: Seq<Seq<u8>>, i: int, j: int)
    requires
        0 <= i <= j,
    ensures
        line_start(lines, i) <= line_start(lines, j),
    decreases j - i,
{
    if i < j {
        lemma_line_start_mono(lines, i, j - 1);
    }
}

/// The offset of the end of the last line equals the joined length.
pub proof fn lemma_line_start_joined(lines: Seq<Seq<u8>>, i: int)
    requires
        0 <= i <= lines.len(),
    ensures
        line_start(lines, i) == joined(lines.subrange(0, i)).len(),
    decreases i,
{
    if i == 0 {
        assert(lines.subrange(0, 0) =~~= Seq::<Seq<u8>>::empty());
    } else {
        lemma_line_start_joined(lines, i - 1);
        assert(lines.subrange(0, i) =~~= lines.subrange(0, i - 1).push(lines[i - 1]));
        crate::bytes_util::lemma_joined_push(lines.subrange(0, i - 1), lines[i - 1]);
    }
}

/// The index of the line that starts exactly at `off`, scanning from `i`.
pub open spec fn line_of_from(lines: Seq<Seq<u8>>, off: int, i: int) -> Option<int>
    decreases lines.len() - i when 0 <= i <= lines.len()
{
    if i >= lines.len() {
        None
    } else if line_start(lines, i) == off {
        Some(i)
    } else {
        line_of_from(lines, off, i + 1)
    }
}

/// The index of the line that starts exactly at `off`, if any.
pub open spec fn line_of_offset(lines: Seq<Seq<u8>>, off: int) -> Option<int> {
    line_of_from(lines, off, 0)
}

pub proof fn lemma_line_of_from(lines: Seq<Seq<u8>>, off: int, i: int)
    requires
        0 <= i <= lines.len(),
    ensures
        match line_of_from(lines, off, i) {
            Some(r) => i <= r < lines.len() && line_start(lines, r) == off,
            None => forall|r: int| i <= r < lines.len() ==> line_start(lines, r) != off,
        },
    decreases lines.len() - i,
{
    if i < lines.len() && line_start(lines, i) != off {
        lemma_line_of_from(lines, off, i + 1);
    }
}

/// A skeleton: the script with the fence block removed, plus the doc line
/// index where the fence stood (always an empty line in the residual).
pub struct Skeleton {
    /// The residual script.
    pub file: ScriptFile,
    /// Index into `file.doc` of the empty line left where the fence was.
    pub fence_line: usize,
}

/// The mathematical shadow of `Skeleton`.
pub ghost struct SkeletonView {
    pub file: ScriptView,
    pub fence_line: int,
}

impl View for Skeleton {
    type V = SkeletonView;

    open spec fn view(&self) -> SkeletonView {
        SkeletonView { file: self.file@, fence_line: self.fence_line as int }
    }
}

/// A skeleton is well formed when its splice point names an empty doc line.
pub open spec fn skeleton_wf(sv: SkeletonView) -> bool {
    &&& wf_view(sv.file)
    &&& 0 <= sv.fence_line < sv.file.doc.len()
    &&& sv.file.doc[sv.fence_line].len() == 0
}

/// What extraction yields: the manifest text and the residual skeleton.
pub struct Extraction {
    /// The fence content, newline-terminated lines.
    pub manifest: Vec<u8>,
    /// The script with the fence block removed.
    pub skeleton: Skeleton,
}

/// The mathematical shadow of `Extraction`.
pub ghost struct ExtractionView {
    pub manifest: Seq<u8>,
    pub skeleton: SkeletonView,
}

impl View for Extraction {
    type V = ExtractionView;

    open spec fn view(&self) -> ExtractionView {
        ExtractionView { manifest: self.manifest@, skeleton: self.skeleton@ }
    }
}

/// Extraction once the fence's content lines `j..k` are known: the content
/// becomes the manifest, and the block (opening marker line `j - 1`
/// through closing marker line `k`) collapses to one empty doc line.
pub open spec fn extract_at(f: ScriptView, j: int, k: int) -> ExtractionView {
    ExtractionView {
        manifest: joined(f.doc.subrange(j, k)),
        skeleton: SkeletonView {
            file: ScriptView {
                directive: f.directive,
                doc: f.doc.subrange(0, j - 1) + seq![Seq::<u8>::empty()] + f.doc.subrange(
                    k + 1,
                    f.doc.len() as int,
                ),
                tail: f.tail,
            },
            fence_line: j - 1,
        },
    }
}

/// The whole extraction pipeline as one mathematical function: encoding
/// gate, grammar gate, line split, markdown scan, and the fence's span
/// mapped back onto whole doc lines. A source that passes the encoding
/// gate always yields a valid UTF-8 rendered doc, so the markdown scan
/// needs no gate of its own.
pub open spec fn extract_spec(src: Seq<u8>) -> Result<ExtractionView, ScriptError> {
    if !valid_utf8(src) {
        Err(ScriptError::NonUtf8Source)
    } else if !syn_accepts(src) {
        Err(ScriptError::MalformedSource)
    } else {
        let f = parse_spec(src);
        let rend = joined(f.doc);
        match scan(md_events_of(rend)) {
            ScanState::Closed { start, end } => {
                match (line_of_offset(f.doc, start as int), line_of_offset(f.doc, end as int)) {
                    (Some(j), Some(k)) => {
                        if 1 <= j && j <= k {
                            Ok(extract_at(f, j, k))
                        } else {
                            Err(ScriptError::MalformedSource)
                        }
                    },
                    _ => Err(ScriptError::MalformedSource),
                }
            },
            ScanState::Several => Err(ScriptError::MultipleFencesAmbiguous),
            _ => Err(ScriptError::FenceNotFound),
        }
    }
}

/// Joins stored doc lines into the markdown surface the fence locator
/// scans: each line followed by a newline.
pub fn render_doc_surface(doc: &Vec<Vec<u8>>) -> (out: Vec<u8>)
    ensures
        out@ == joined(doc.deep_view()),
{
    let mut out: Vec<u8> = Vec::new();
    let mut i: usize = 0;
    proof {
        assert(doc.deep_view().subrange(0, 0) =~~= Seq::<Seq<u8>>::empty());
    }
    while i < doc.len()
        invariant
            i <= doc@.len(),
            doc@.len() == doc.deep_view().len(),
            out@ == joined(doc.deep_view().subrange(0, i as int)),
        decreases doc.len() - i,
    {
        crate::bytes_util::append_bytes(&mut out, &doc[i]);
        out.push(NL);
        proof {
            let dv = doc.deep_view();
            assert(dv.subrange(0, i + 1) =~~= dv.subrange(0, i as int).push(dv[i as int]));
            crate::bytes_util::lemma_joined_push(dv.subrange(0, i as int), dv[i as int]);
            assert(out@ =~= joined(dv.subrange(0, i + 1)));
        }
        i += 1;
    }
    proof {
        assert(doc.deep_view().subrange(0, doc.deep_view().len() as int) =~~= doc.deep_view());
    }
    out
}

/// Finds the doc line starting exactly at byte offset `off` of the joined
/// rendering, matching `line_of_offset`.
fn find_line(doc: &Vec<Vec<u8>>, off: usize, total: usize) -> (r: Option<usize>)
    requires
        line_start(doc.deep_view(), doc.deep_view().len() as int) == total,
    ensures
        match r {
            Some(i) => line_of_offset(doc.deep_view(), off as int) == Some(i as int) && i
                < doc.deep_view().len(),
            None => line_of_offset(doc.deep_view(), off as int) is None,
        },
{
    let ghost dv = doc.deep_view();
    let mut i: usize = 0;
    let mut acc: usize = 0;
    while i < doc.len()
        invariant
            i <= dv.len(),
            dv == doc.deep_view(),
            dv.len() == doc@.len(),
            acc == line_start(dv, i as int),
            line_start(dv, dv.len() as int) == total,
            line_of_from(dv, off as int, 0) == line_of_from(dv, off as int, i as int),
        decreases doc.len() - i,
    {
        if acc == off {
            return Some(i);
        }
        proof {
            lemma_line_start_mono(dv, i + 1, dv.len() as int);
            assert(line_start(dv, i + 1) == acc + dv[i as int].len() + 1);
            assert(line_start(dv, i + 1) <= total);
        }
        acc = acc + doc[i].len() + 1;
        i += 1;
    }
    None
}

/// Copies the stored lines `[a, b)` into a fresh vector.
fn copy_lines(src: &Vec<Vec<u8>>, a: usize, b: usize) -> (r: Vec<Vec<u8>>)
    requires
        a <= b <= src.deep_view().len(),
    ensures
        r.deep_view() == src.deep_view().subrange(a as int, b as int),
{
    let mut r: Vec<Vec<u8>> = Vec::new();
    let mut i: usize = a;
    proof {
        assert(r.deep_view() =~~= src.deep_view().subrange(a as int, a as int));
    }
    while i < b
        invariant
            a <= i <= b <= src.deep_view().len(),
            src.deep_view().len() == src@.len(),
            r.deep_view() == src.deep_view().subrange(a as int, i as int),
        decreases b - i,
    {
        let line = crate::bytes_util::copy_range(&src[i], 0, src[i].len());
        proof {
            assert(line@ =~= src.deep_view()[i as int]);
        }
        let ghost old_r = r.deep_view();
        r.push(line);
        proof {
            assert(r.deep_view() =~~= old_r.push(line@));
            assert(r.deep_view() =~~= src.deep_view().subrange(a as int, i + 1));
        }
        i += 1;
    }
    r
}

/// Joins the stored lines `[a, b)` into one newline-terminated byte text.
fn join_lines(src: &Vec<Vec<u8>>, a: usize, b: usize) -> (r: Vec<u8>)
    requires
        a <= b <= src.deep_view().len(),
    ensures
        r@ == joined(src.deep_view().subrange(a as int, b as int)),
{
    let mut r: Vec<u8> = Vec::new();
    let mut i: usize = a;
    proof {
        assert(src.deep_view().subrange(a as int, a as int) =~~= Seq::<Seq<u8>>::empty());
    }
    while i < b
        invariant
            a <= i <= b <= src.deep_view().len(),
            src.deep_view().len() == src@.len(),
            r@ == joined(src.deep_view().subrange(a as int, i as int)),
        decreases b - i,
    {
        crate::bytes_util::append_bytes(&mut r, &src[i]);
        r.push(NL);
        proof {
            let dv = src.deep_view();
            assert(dv.subrange(a as int, i + 1) =~~= dv.subrange(a as int, i as int).push(
                dv[i as int],
            ));
            crate::bytes_util::lemma_joined_push(dv.subrange(a as int, i as int), dv[i as int]);
            assert(r@ =~= joined(dv.subrange(a as int, i + 1)));
        }
        i += 1;
    }
    r
}

/// Extracts the manifest embedded in a script's doc comment: the forward
/// direction of the transcoder.
///
/// On success, the manifest is exactly the reserved fence's content, and
/// the skeleton is the same file with the fence block collapsed to one
/// empty doc line. Each failure is tied to its cause: bytes that are not
/// UTF-8, text the grammar rejects (or a fence not aligned on whole doc
/// lines), no reserved fence, or more than one.
pub fn extract(src: &Vec<u8>) -> (r: Result<Extraction, ScriptError>)
    ensures
        (r is Ok) == (extract_spec(src@) is Ok),
        r is Ok ==> r->Ok_0@ == extract_spec(src@)->Ok_0,
        r is Err ==> r->Err_0 == extract_spec(src@)->Err_0,
{
    if !crate::fence::utf8_check(src) {
        return Err(ScriptError::NonUtf8Source);
    }
    if !crate::fence::syn_check(src) {
        return Err(ScriptError::MalformedSource);
    }
    let f = crate::script::parse_script(src);
    let rend = render_doc_surface(&f.doc);
    proof {
        assert(f.doc.deep_view() == f@.doc);
        crate::script::lemma_parse_doc_utf8(src@);
    }
    let events = crate::fence::md_events(&rend);
    let st = crate::fence::run_scan(&events);
    match st {
        ScanState::Closed { start, end } => {
            proof {
                lemma_line_start_joined(f@.doc, f@.doc.len() as int);
                assert(f@.doc.subrange(0, f@.doc.len() as int) =~~= f@.doc);
            }
            let j_opt = find_line(&f.doc, start, rend.len());
            let k_opt = find_line(&f.doc, end, rend.len());
            match (j_opt, k_opt) {
                (Some(j), Some(k)) => {
                    if 1 <= j && j <= k {
                        let n = f.doc.len();
                        proof {
                            assert(f.doc.deep_view().len() == f.doc@.len());
                            assert(k < n);
                        }
                        let manifest = join_lines(&f.doc, j, k);
                        let before = copy_lines(&f.doc, 0, j - 1);
                        let after = copy_lines(&f.doc, k + 1, f.doc.len());
                        let mut new_doc = before;
                        new_doc.push(Vec::new());
                        let ghost mid = new_doc.deep_view();
                        let mut after_v = after;
                        let mut t: usize = 0;
                        proof {
                            assert(new_doc.deep_view() =~~= f@.doc.subrange(0, j - 1).push(
                                Seq::<u8>::empty(),
                            ));
                            assert(after_v.deep_view() == f@.doc.subrange(
                                k + 1,
                                f@.doc.len() as int,
                            ));
                        }
                        while t < after_v.len()
                            invariant
                                t <= after_v.deep_view().len(),
                                after_v.deep_view().len() == after_v@.len(),
                                after_v.deep_view() == f@.doc.subrange(k + 1, f@.doc.len() as int),
                                new_doc.deep_view() == mid + after_v.deep_view().subrange(
                                    0,
                                    t as int,
                                ),
                            decreases after_v.len() - t,
                        {
                            let line = crate::bytes_util::copy_range(
                                &after_v[t],
                                0,
                                after_v[t].len(),
                            );
                            proof {
                                assert(line@ =~= after_v.deep_view()[t as int]);
                            }
                            let ghost old_nd = new_doc.deep_view();
                            new_doc.push(line);
                            proof {
                                assert(new_doc.deep_view() =~~= old_nd.push(line@));
                                assert(new_doc.deep_view() =~~= mid
                                    + after_v.deep_view().subrange(0, t + 1));
                            }
                            t += 1;
                        }
                        proof {
                            assert(after_v.deep_view().subrange(
                                0,
                                after_v.deep_view().len() as int,
                            ) =~~= after_v.deep_view());
                            assert(new_doc.deep_view() =~~= f@.doc.subrange(0, j - 1) + seq![
                                Seq::<u8>::empty(),
                            ] + f@.doc.subrange(k + 1, f@.doc.len() as int));
                        }
                        let skeleton = Skeleton {
                            file: ScriptFile { directive: f.directive, doc: new_doc, tail: f.tail },
                            fence_line: j - 1,
                        };
                        let out = Extraction { manifest, skeleton };
                        proof {
                            assert(out@.skeleton.file.doc =~~= extract_at(
                                f@,
                                j as int,
                                k as int,
                            ).skeleton.file.doc);
                            assert(out@ == extract_at(f@, j as int, k as int));
                        }
                        Ok(out)
                    } else {
                        Err(ScriptError::MalformedSource)
                    }
                },
                _ => Err(ScriptError::MalformedSource),
            }
        },
        ScanState::Several => Err(ScriptError::MultipleFencesAmbiguous),
        _ => Err(ScriptError::FenceNotFound),
    }
}

/// The line that opens the reserved fence: three backticks and the tag.
pub open spec fn open_marker() -> Seq<u8> {
    seq![96u8, 96u8, 96u8, 99u8, 97u8, 114u8, 103u8, 111u8]
}

/// The line that closes the fence: three backticks.
pub open spec fn close_marker() -> Seq<u8> {
    seq![96u8, 96u8, 96u8]
}

/// The single comment line an empty manifest is written as.
pub open spec fn placeholder_line() -> Seq<u8> {
    seq![35u8, 32u8, 76u8, 101u8, 97u8, 118u8, 101u8, 32u8, 98u8, 108u8, 97u8, 110u8, 107u8, 46u8]
}

/// The doc lines a manifest text turns into: its newline-split lines, or
/// the placeholder line when it is empty.
pub open spec fn manifest_lines(m: Seq<u8>) -> Seq<Seq<u8>> {
    if m.len() == 0 {
        seq![placeholder_line()]
    } else {
        split_nl(m)
    }
}

/// The doc run with the fence block rebuilt at line `p` in place of the
/// empty splice-point line.
pub open spec fn inject_doc(doc: Seq<Seq<u8>>, p: int, m: Seq<u8>) -> Seq<Seq<u8>> {
    doc.subrange(0, p) + seq![open_marker()] + manifest_lines(m) + seq![close_marker()]
        + doc.subrange(p + 1, doc.len() as int)
}

/// The backward direction of the transcoder as one mathematical function:
/// the file with the manifest re-embedded at the skeleton's splice point.
pub open spec fn inject_spec(m: Seq<u8>, sv: SkeletonView) -> Seq<u8> {
    crate::script::render_spec(
        ScriptView {
            directive: sv.file.directive,
            doc: inject_doc(sv.file.doc, sv.fence_line, m),
            tail: sv.file.tail,
        },
    )
}

/// Appends copies of the stored lines `[a, b)` of `src` to `dst`.
fn append_lines(dst: &mut Vec<Vec<u8>>, src: &Vec<Vec<u8>>, a: usize, b: usize)
    requires
        a <= b <= src.deep_view().len(),
    ensures
        final(dst).deep_view() == old(dst).deep_view() + src.deep_view().subrange(
            a as int,
            b as int,
        ),
{
    let ghost base = dst.deep_view();
    let mut i: usize = a;
    proof {
        assert(base + src.deep_view().subrange(a as int, a as int) =~~= base);
    }
    while i < b
        invariant
            a <= i <= b <= src.deep_view().len(),
            src.deep_view().len() == src@.len(),
            dst.deep_view() == base + src.deep_view().subrange(a as int, i as int),
        decreases b - i,
    {
        let line = crate::bytes_util::copy_range(&src[i], 0, src[i].len());
        proof {
            assert(line@ =~= src.deep_view()[i as int]);
        }
        let ghost old_d = dst.deep_view();
        dst.push(line);
        proof {
            assert(dst.deep_view() =~~= old_d.push(line@));
            assert(dst.deep_view() =~~= base + src.deep_view().subrange(a as int, i + 1));
        }
        i += 1;
    }
}

/// Re-embeds a manifest into a skeleton: the backward direction of the
/// transcoder. The fence block reappears at the recorded splice point,
/// with the manifest's lines between the markers (or the placeholder line
/// when the manifest is empty); every other byte of the residual file is
/// reproduced unchanged.
pub fn inject(manifest: &Vec<u8>, skel: &Skeleton) -> (out: Vec<u8>)
    requires
        skeleton_wf(skel@),
    ensures
        out@ == inject_spec(manifest@, skel@),
{
    let p = skel.fence_line;
    let mut new_doc = copy_lines(&skel.file.doc, 0, p);
    let open_m: Vec<u8> = vec![96u8, 96u8, 96u8, 99u8, 97u8, 114u8, 103u8, 111u8];
    proof {
        assert(open_m@ =~= open_marker());
    }
    let ghost before = new_doc.deep_view();
    new_doc.push(open_m);
    proof {
        assert(new_doc.deep_view() =~~= before.push(open_marker()));
    }

    let ghost with_open = new_doc.deep_view();
    if manifest.len() == 0 {
        let ph: Vec<u8> = vec![
            35u8,
            32u8,
            76u8,
            101u8,
            97u8,
            118u8,
            101u8,
            32u8,
            98u8,
            108u8,
            97u8,
            110u8,
            107u8,
            46u8,
        ];
        proof {
            assert(ph@ =~= placeholder_line());
        }
        new_doc.push(ph);
        proof {
            assert(new_doc.deep_view() =~~= with_open + manifest_lines(manifest@));
        }
    } else {
        let mlines = crate::bytes_util::split_lines(manifest);
        let ghost mv = mlines.deep_view();
        append_lines(&mut new_doc, &mlines, 0, mlines.len());
        proof {
            assert(mv.subrange(0, mv.len() as int) =~~= mv);
            assert(new_doc.deep_view() =~~= with_open + manifest_lines(manifest@));
        }
    }

    let close_m: Vec<u8> = vec![96u8, 96u8, 96u8];
    proof {
        assert(close_m@ =~= close_marker());
    }
    let ghost with_m = new_doc.deep_view();
    new_doc.push(close_m);
    proof {
        assert(new_doc.deep_view() =~~= with_m.push(close_marker()));
    }
    let n = skel.file.doc.len();
    proof {
        assert(skel.file.doc.deep_view().len() == skel.file.doc@.len());
        assert(skel@.fence_line < skel@.file.doc.len());
        assert(p < n);
    }
    append_lines(&mut new_doc, &skel.file.doc, p + 1, n);
    proof {
        assert(new_doc.deep_view() =~~= inject_doc(
            skel@.file.doc,
            skel@.fence_line,
            manifest@,
        ));
    }

    let directive: Option<Vec<u8>> = match &skel.file.directive {
        Some(d) => Some(crate::bytes_util::copy_range(d, 0, d.len())),
        None => None,
    };
    let tail = crate::bytes_util::copy_range(&skel.file.tail, 0, skel.file.tail.len());
    let rebuilt = ScriptFile { directive, doc: new_doc, tail };
    proof {
        assert(rebuilt@.directive == skel@.file.directive) by {
            match skel.file.directive {
                Some(d) => {
                    assert(d@.subrange(0, d@.len() as int) =~= d@);
                },
                None => {},
            }
        }
        assert(rebuilt@.tail =~= skel@.file.tail);
    }
    crate::script::render_script(&rebuilt)
}

/// Renders the residual file of a skeleton back to bytes, for writing the
/// split source file out.
pub fn skeleton_text(skel: &Skeleton) -> (out: Vec<u8>)
    ensures
        out@ == crate::script::render_spec(skel@.file),
{
    crate::script::render_script(&skel.file)
}

/// In-place replacement: the doc run with the fence content lines `j..k`
/// replaced by the manifest's lines, both markers kept as they were.
pub open spec fn replace_doc(doc: Seq<Seq<u8>>, j: int, k: int, m: Seq<u8>) -> Seq<Seq<u8>> {
    doc.subrange(0, j) + manifest_lines(m) + doc.subrange(k, doc.len() as int)
}

/// Replacing the fence content of a source that still carries the fence,
/// as one mathematical function. The gates and errors are those of
/// `extract_spec`; on success only the content lines change.
pub open spec fn replace_spec(src: Seq<u8>, m: Seq<u8>) -> Result<Seq<u8>, ScriptError> {
    match extract_spec(src) {
        Err(e) => Err(e),
        Ok(_) => {
            let f = parse_spec(src);
            let jk = fence_lines_of(src);
            Ok(
                crate::script::render_spec(
                    ScriptView {
                        directive: f.directive,
                        doc: replace_doc(f.doc, jk.0, jk.1, m),
                        tail: f.tail,
                    },
                ),
            )
        },
    }
}

/// Replaces the reserved fence's content with `manifest`, keeping the
/// fence markers and every other byte of the file as they are. This is
/// the merge step for a source that still embeds a manifest block.
pub fn merge_source(src: &Vec<u8>, manifest: &Vec<u8>) -> (r: Result<Vec<u8>, ScriptError>)
    ensures
        (r is Ok) == (replace_spec(src@, manifest@) is Ok),
        r is Ok ==> r->Ok_0@ == replace_spec(src@, manifest@)->Ok_0,
        r is Err ==> r->Err_0 == replace_spec(src@, manifest@)->Err_0,
{
    if !crate::fence::utf8_check(src) {
        return Err(ScriptError::NonUtf8Source);
    }
    if !crate::fence::syn_check(src) {
        return Err(ScriptError::MalformedSource);
    }
    let f = crate::script::parse_script(src);
    let rend = render_doc_surface(&f.doc);
    proof {
        assert(f.doc.deep_view() == f@.doc);
        crate::script::lemma_parse_doc_utf8(src@);
    }
    let events = crate::fence::md_events(&rend);
    let st = crate::fence::run_scan(&events);
    match st {
        ScanState::Closed { start, end } => {
            proof {
                lemma_line_start_joined(f@.doc, f@.doc.len() as int);
                assert(f@.doc.subrange(0, f@.doc.len() as int) =~~= f@.doc);
            }
            let j_opt = find_line(&f.doc, start, rend.len());
            let k_opt = find_line(&f.doc, end, rend.len());
            match (j_opt, k_opt) {
                (Some(j), Some(k)) => {
                    if 1 <= j && j <= k {
                        let n = f.doc.len();
                        proof {
                            assert(f.doc.deep_view().len() == f.doc@.len());
                            assert(k < n);
                        }
                        let mut new_doc = copy_lines(&f.doc, 0, j);
                        let ghost head = new_doc.deep_view();
                        if manifest.len() == 0 {
                            let ph: Vec<u8> = vec![
                                35u8,
                                32u8,
                                76u8,
                                101u8,
                                97u8,
                                118u8,
                                101u8,
                                32u8,
                                98u8,
                                108u8,
                                97u8,
                                110u8,
                                107u8,
                                46u8,
                            ];
                            proof {
                                assert(ph@ =~= placeholder_line());
                            }
                            new_doc.push(ph);
                            proof {
                                assert(new_doc.deep_view() =~~= head + manifest_lines(manifest@));
                            }
                        } else {
                            let mlines = crate::bytes_util::split_lines(manifest);
                            let ghost mv = mlines.deep_view();
                            append_lines(&mut new_doc, &mlines, 0, mlines.len());
                            proof {
                                assert(mv.subrange(0, mv.len() as int) =~~= mv);
                                assert(new_doc.deep_view() =~~= head + manifest_lines(manifest@));
                            }
                        }
                        append_lines(&mut new_doc, &f.doc, k, n);
                        proof {
                            assert(new_doc.deep_view() =~~= replace_doc(
                                f@.doc,
                                j as int,
                                k as int,
                                manifest@,
                            ));
                        }
                        let rebuilt = ScriptFile {
                            directive: f.directive,
                            doc: new_doc,
                            tail: f.tail,
                        };
                        Ok(crate::script::render_script(&rebuilt))
                    } else {
                        Err(ScriptError::MalformedSource)
                    }
                },
                _ => Err(ScriptError::MalformedSource),
            }
        },
        ScanState::Several => Err(ScriptError::MultipleFencesAmbiguous),
        _ => Err(ScriptError::FenceNotFound),
    }
}

/// The last empty line of a doc run, if any: the splice point that
/// extraction leaves behind.
pub open spec fn last_empty_line(doc: Seq<Seq<u8>>) -> Option<int>
    decreases doc.len(),
{
    if doc.len() == 0 {
        None
    } else if doc.last().len() == 0 {
        Some(doc.len() - 1)
    } else {
        last_empty_line(doc.drop_last())
    }
}

pub proof fn lemma_last_empty_line(doc: Seq<Seq<u8>>)
    ensures
        match last_empty_line(doc) {
            Some(p) => 0 <= p < doc.len() && doc[p].len() == 0 && forall|i: int|
                p < i < doc.len() ==> doc[i].len() != 0,
            None => forall|i: int| 0 <= i < doc.len() ==> doc[i].len() != 0,
        },
    decreases doc.len(),
{
    if doc.len() > 0 && doc.last().len() != 0 {
        lemma_last_empty_line(doc.drop_last());
        match last_empty_line(doc.drop_last()) {
            Some(p) => {
                assert(doc[p] == doc.drop_last()[p]);
                assert forall|i: int| p < i < doc.len() implies doc[i].len() != 0 by {
                    if i < doc.len() - 1 {
                        assert(doc[i] == doc.drop_last()[i]);
                    } else {
                        assert(doc[i] == doc.last());
                    }
                }
            },
            None => {
                assert forall|i: int| 0 <= i < doc.len() implies doc[i].len() != 0 by {
                    if i < doc.len() - 1 {
                        assert(doc[i] == doc.drop_last()[i]);
                    } else {
                        assert(doc[i] == doc.last());
                    }
                }
            },
        }
    }
}

/// Splicing a manifest into a fence-less residual source, as one
/// mathematical function: the fence block is rebuilt at the last empty
/// doc line, which is where extraction leaves its splice point. With no
/// empty doc line there is nowhere to splice.
pub open spec fn inject_into_spec(m: Seq<u8>, src: Seq<u8>) -> Result<Seq<u8>, ScriptError> {
    let f = parse_spec(src);
    match last_empty_line(f.doc) {
        None => Err(ScriptError::FenceNotFound),
        Some(p) => Ok(
            crate::script::render_spec(
                ScriptView { directive: f.directive, doc: inject_doc(f.doc, p, m), tail: f.tail },
            ),
        ),
    }
}

/// Re-embeds a manifest into residual source text: the fence block is
/// spliced in at the last empty doc line. `FenceNotFound` when the doc
/// run has no empty line to splice at.
pub fn inject_into_source(manifest: &Vec<u8>, src: &Vec<u8>) -> (r: Result<Vec<u8>, ScriptError>)
    ensures
        (r is Ok) == (inject_into_spec(manifest@, src@) is Ok),
        r is Ok ==> r->Ok_0@ == inject_into_spec(manifest@, src@)->Ok_0,
        r is Err ==> r->Err_0 == inject_into_spec(manifest@, src@)->Err_0,
{
    let f = crate::script::parse_script(src);
    proof {
        crate::script::lemma_parse_renders_cleanly(src@);
    }
    let n = f.doc.len();
    let mut found: Option<usize> = None;
    let mut i: usize = n;
    proof {
        assert(f@.doc.subrange(0, n as int) =~~= f@.doc);
    }
    while i > 0 && found.is_none()
        invariant
            i <= n,
            n == f@.doc.len(),
            f@.doc == f.doc.deep_view(),
            match found {
                Some(p) => last_empty_line(f@.doc) == Some(p as int) && p < n,
                None => last_empty_line(f@.doc) == last_empty_line(
                    f@.doc.subrange(0, i as int),
                ),
            },
        decreases i,
    {
        if f.doc[i - 1].len() == 0 {
            proof {
                assert(f@.doc.subrange(0, i as int).last().len() == 0);
                assert(last_empty_line(f@.doc) == Some(i - 1));
            }
            found = Some(i - 1);
        } else {
            proof {
                assert(f@.doc.subrange(0, i as int).drop_last() =~~= f@.doc.subrange(0, i - 1));
                assert(f@.doc.subrange(0, i as int).last() == f@.doc[i - 1]);
            }
        }
        i -= 1;
    }
    match found {
        None => {
            proof {
                assert(f@.doc.subrange(0, 0) =~~= Seq::<Seq<u8>>::empty());
            }
            Err(ScriptError::FenceNotFound)
        },
        Some(p) => {
            proof {
                lemma_last_empty_line(f@.doc);
            }
            let skel = Skeleton { file: f, fence_line: p };
            assert(skeleton_wf(skel@));
            Ok(inject(manifest, &skel))
        },
    }
}

/// The reserved fence's content span, in bytes of the rendered doc.
/// Meaningful when extraction succeeds.
pub open spec fn fence_span_of(src: Seq<u8>) -> (int, int) {
    match scan(md_events_of(joined(parse_spec(src).doc))) {
        ScanState::Closed { start, end } => (start as int, end as int),
        _ => (0int, 0int),
    }
}

/// The reserved fence's content lines `j..k` in the parsed doc run.
/// Meaningful when extraction succeeds.
pub open spec fn fence_lines_of(src: Seq<u8>) -> (int, int) {
    let f = parse_spec(src);
    let sp = fence_span_of(src);
    (line_of_offset(f.doc, sp.0)->Some_0, line_of_offset(f.doc, sp.1)->Some_0)
}

/// Whether the fence block appears in the exact spelling that injection
/// writes: the opening line is the marker plus the reserved tag, the
/// closing line the bare marker, and the content is not empty.
pub open spec fn fence_block_literal(src: Seq<u8>) -> bool {
    let f = parse_spec(src);
    let jk = fence_lines_of(src);
    &&& jk.0 < jk.1
    &&& f.doc[jk.0 - 1] == open_marker()
    &&& f.doc[jk.1] == close_marker()
}

/// A manifest of whole lines maps onto exactly those lines again when it
/// is split for injection: an extracted manifest of `n` lines becomes `n`
/// doc lines between the markers.
pub proof fn lemma_manifest_lines_recover(content: Seq<Seq<u8>>)
    requires
        content.len() > 0,
        forall|i: int, j: int|
            0 <= i < content.len() && 0 <= j < content[i].len() ==> #[trigger] content[i][j]
                != NL,
    ensures
        manifest_lines(joined(content)) == content,
{
    lemma_joined_nonempty(content);
    crate::bytes_util::lemma_split_joined(content);
}

proof fn lemma_joined_nonempty(lines: Seq<Seq<u8>>)
    requires
        lines.len() > 0,
    ensures
        joined(lines).len() > 0,
{
}

/// A successful extraction yields a well-formed skeleton: the residual
/// lines hold no newline and the splice point names the empty line left
/// where the fence was.
pub proof fn lemma_extract_wf(src: Seq<u8>)
    requires
        extract_spec(src) is Ok,
    ensures
        skeleton_wf(extract_spec(src)->Ok_0.skeleton),
{
    crate::script::lemma_parse_renders_cleanly(src);
    let f = parse_spec(src);
    let jk = fence_lines_of(src);
    let j = jk.0;
    let k = jk.1;
    let ex = extract_spec(src)->Ok_0;
    assert(ex == extract_at(f, j, k));
    let sd = ex.skeleton.file.doc;
    assert(sd == f.doc.subrange(0, j - 1) + seq![Seq::<u8>::empty()] + f.doc.subrange(
        k + 1,
        f.doc.len() as int,
    ));
    lemma_line_of_from(f.doc, fence_span_of(src).0, 0);
    lemma_line_of_from(f.doc, fence_span_of(src).1, 0);
    assert(sd[j - 1].len() == 0);
    assert(forall|a: int, b: int|
        0 <= a < sd.len() && 0 <= b < sd[a].len() ==> #[trigger] sd[a][b] != NL) by {
        assert(forall|a: int, b: int|
            0 <= a < f.doc.len() && 0 <= b < f.doc[a].len() ==> #[trigger] f.doc[a][b] != NL);
    }
}

/// Splicing is local: a successful extraction leaves the directive, the
/// tail, and every doc line outside the fence block untouched, in order.
pub proof fn lemma_extract_locality(src: Seq<u8>)
    requires
        extract_spec(src) is Ok,
    ensures
        ({
            let f = parse_spec(src);
            let ex = extract_spec(src)->Ok_0;
            let jk = fence_lines_of(src);
            &&& ex.skeleton.file.directive == f.directive
            &&& ex.skeleton.file.tail == f.tail
            &&& forall|i: int|
                0 <= i < jk.0 - 1 ==> #[trigger] ex.skeleton.file.doc[i] == f.doc[i]
            &&& forall|i: int|
                jk.1 < i < f.doc.len() ==> #[trigger] ex.skeleton.file.doc[i - (jk.1 - jk.0) - 1]
                    == f.doc[i]
        }),
{
    let f = parse_spec(src);
    let jk = fence_lines_of(src);
    let j = jk.0;
    let k = jk.1;
    let ex = extract_spec(src)->Ok_0;
    assert(ex == extract_at(f, j, k));
    lemma_line_of_from(f.doc, fence_span_of(src).0, 0);
    lemma_line_of_from(f.doc, fence_span_of(src).1, 0);
    let sd = ex.skeleton.file.doc;
    assert forall|i: int| jk.1 < i < f.doc.len() implies #[trigger] sd[i - (jk.1 - jk.0) - 1]
        == f.doc[i] by {
        assert(sd[(j - 1) + 1 + (i - k - 1)] == f.doc.subrange(k + 1, f.doc.len() as int)[i - k
            - 1]);
    }
}

/// A source whose doc comment opens two or more reserved fences is
/// ambiguous: extraction reports it and never silently picks one.
pub proof fn lemma_two_fences_ambiguous(src: Seq<u8>)
    requires
        valid_utf8(src),
        syn_accepts(src),
        crate::fence::cargo_start_count(md_events_of(joined(parse_spec(src).doc))) >= 2,
    ensures
        extract_spec(src) == Err::<ExtractionView, ScriptError>(
            ScriptError::MultipleFencesAmbiguous,
        ),
{
    crate::fence::lemma_scan_counts(md_events_of(joined(parse_spec(src).doc)));
}

/// Injecting an `n`-line manifest grows the doc run by those lines plus
/// the two fence markers, minus the splice-point line they replace.
pub proof fn lemma_inject_line_count(m: Seq<u8>, sv: SkeletonView)
    requires
        skeleton_wf(sv),
        m.len() > 0,
    ensures
        inject_doc(sv.file.doc, sv.fence_line, m).len() == sv.file.doc.len() + split_nl(m).len()
            + 1,
{
}

/// The round trip through the residual file on disk: extracting the
/// manifest, writing the skeleton out as text, and splicing the manifest
/// back into that text reproduces the source byte for byte. Beyond the
/// conditions of the in-memory round trip, no doc line after the fence
/// block may be empty, since the splice point in a bare text is found as
/// the last empty doc line.
pub proof fn lemma_residual_round_trip(src: Seq<u8>)
    requires
        crate::script::canonical_source(src),
        extract_spec(src) is Ok,
        fence_block_literal(src),
        ({
            let f = parse_spec(src);
            let jk = fence_lines_of(src);
            forall|i: int| jk.1 < i < f.doc.len() ==> f.doc[i].len() != 0
        }),
    ensures
        ({
            let ex = extract_spec(src)->Ok_0;
            inject_into_spec(ex.manifest, crate::script::render_spec(ex.skeleton.file)) == Ok::<
                Seq<u8>,
                ScriptError,
            >(src)
        }),
{
    crate::script::lemma_parse_renders_cleanly(src);
    lemma_extract_wf(src);
    lemma_extract_inject_round_trip(src);
    let f = parse_spec(src);
    let jk = fence_lines_of(src);
    let j = jk.0;
    let k = jk.1;
    let ex = extract_spec(src)->Ok_0;
    assert(ex == extract_at(f, j, k));
    lemma_line_of_from(f.doc, fence_span_of(src).0, 0);
    lemma_line_of_from(f.doc, fence_span_of(src).1, 0);

    let sf = ex.skeleton.file;
    assert(crate::script::renders_cleanly(sf)) by {
        assert(!crate::script::is_doc_line_start(sf.tail));
        assert(sf.doc.len() > 0);
    }
    crate::script::lemma_parse_render(sf);
    let rendered = crate::script::render_spec(sf);
    assert(parse_spec(rendered) == sf);

    let p = j - 1;
    assert(sf.doc[p].len() == 0);
    assert forall|i: int| p < i < sf.doc.len() implies sf.doc[i].len() != 0 by {
        assert(sf.doc[i] == f.doc.subrange(k + 1, f.doc.len() as int)[i - p - 1]);
        assert(sf.doc[i] == f.doc[i - p - 1 + k + 1]);
    }
    lemma_last_empty_line(sf.doc);
    match last_empty_line(sf.doc) {
        None => {
            assert(sf.doc[p].len() != 0);
        },
        Some(q) => {
            if q < p {
                assert(sf.doc[p].len() != 0);
            } else if q > p {
                assert(sf.doc[q].len() != 0);
            }
            assert(q == p);
        },
    }
    assert(last_empty_line(sf.doc) == Some(p));
    assert(inject_into_spec(ex.manifest, rendered) == Ok::<Seq<u8>, ScriptError>(
        inject_spec(ex.manifest, ex.skeleton),
    ));
}

/// The round trip: extracting the manifest from a source and injecting it
/// into the resulting skeleton reproduces the source byte for byte,
/// provided the source is in canonical form and its fence block is spelled
/// exactly as injection spells it.
pub proof fn lemma_extract_inject_round_trip(src: Seq<u8>)
    requires
        crate::script::canonical_source(src),
        extract_spec(src) is Ok,
        fence_block_literal(src),
    ensures
        ({
            let ex = extract_spec(src)->Ok_0;
            inject_spec(ex.manifest, ex.skeleton) == src
        }),
{
    crate::script::lemma_parse_renders_cleanly(src);
    let f = parse_spec(src);
    let jk = fence_lines_of(src);
    let j = jk.0;
    let k = jk.1;
    let ex = extract_spec(src)->Ok_0;
    assert(ex == extract_at(f, j, k));
    lemma_line_of_from(f.doc, fence_span_of(src).0, 0);
    lemma_line_of_from(f.doc, fence_span_of(src).1, 0);
    assert(1 <= j && j < k && k < f.doc.len());

    let content = f.doc.subrange(j, k);
    let m = ex.manifest;
    assert(m == joined(content));
    lemma_joined_nonempty(content);
    assert(forall|a: int, b: int|
        0 <= a < content.len() && 0 <= b < content[a].len() ==> #[trigger] content[a][b] != NL)
        by {
        assert(forall|a: int, b: int|
            0 <= a < f.doc.len() && 0 <= b < f.doc[a].len() ==> #[trigger] f.doc[a][b] != NL);
        assert(forall|a: int|
            0 <= a < content.len() ==> #[trigger] content[a] == f.doc[a + j]);
    }
    crate::bytes_util::lemma_split_joined(content);
    assert(manifest_lines(m) == content);

    let sd = ex.skeleton.file.doc;
    let p = ex.skeleton.fence_line;
    assert(p == j - 1);
    let rebuilt = inject_doc(sd, p, m);
    assert(sd.subrange(0, p) =~~= f.doc.subrange(0, j - 1));
    assert(sd.subrange(p + 1, sd.len() as int) =~~= f.doc.subrange(k + 1, f.doc.len() as int));
    assert(rebuilt =~~= f.doc.subrange(0, j - 1) + seq![open_marker()] + content + seq![
        close_marker(),
    ] + f.doc.subrange(k + 1, f.doc.len() as int));
    assert(rebuilt =~~= f.doc) by {
        assert(f.doc[j - 1] == open_marker());
        assert(f.doc[k] == close_marker());
        assert(forall|a: int| 0 <= a < content.len() ==> #[trigger] content[a] == f.doc[a + j]);
    }
    let back = ScriptView { directive: f.directive, doc: rebuilt, tail: f.tail };
    assert(back == f);
    assert(inject_spec(m, ex.skeleton) == crate::script::render_spec(f));
}

} // verus!
