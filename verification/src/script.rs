//! The line model of a script file: an optional interpreter directive line,
//! the contiguous run of leading line doc comments, and the untouched rest
//! of the file. Parsing and rendering are exact inverses on well-formed
//! values, which is what makes byte-faithful transcoding possible.

use vstd::prelude::*;

use crate::bytes_util::{find_nl, first_nl, lemma_first_nl, lemma_first_nl_prefix, NL};

verus! {

/// `/` byte.
pub const SLASH: u8 = 47;

/// `!` byte.
pub const BANG: u8 = 33;

/// `#` byte.
pub const HASH: u8 = 35;

/// ` ` byte.
pub const SPACE: u8 = 32;

/// `\t` byte.
pub const TAB: u8 = 9;

/// `[` byte.
pub const LBRACKET: u8 = 91;

/// `\r` byte.
pub const CR: u8 = 13;

/// Whether a byte is whitespace for the purpose of telling an interpreter
/// directive from an inner attribute: spaces, tabs and line breaks.
pub open spec fn is_blank(b: u8) -> bool {
    b == SPACE || b == TAB || b == NL || b == CR
}

/// The marker that starts a line doc comment.
pub open spec fn doc_marker() -> Seq<u8> {
    seq![SLASH, SLASH, BANG]
}

/// A script file, split into the three regions the transcoder cares about.
/// `directive` and each `doc` entry hold line contents without their
/// terminating newline; `tail` holds the rest of the file verbatim.
pub struct ScriptFile {
    /// The interpreter directive line, without its newline, if the file
    /// starts with one.
    pub directive: Option<Vec<u8>>,
    /// The rendered content of each leading doc-comment line: marker and at
    /// most one following space stripped.
    pub doc: Vec<Vec<u8>>,
    /// Every byte after the doc-comment run, verbatim.
    pub tail: Vec<u8>,
}

/// The mathematical shadow of `ScriptFile`.
pub ghost struct ScriptView {
    pub directive: Option<Seq<u8>>,
    pub doc: Seq<Seq<u8>>,
    pub tail: Seq<u8>,
}

impl View for ScriptFile {
    type V = ScriptView;

    open spec fn view(&self) -> ScriptView {
        ScriptView {
            directive: match self.directive {
                Some(d) => Some(d@),
                None => None,
            },
            doc: self.doc.deep_view(),
            tail: self.tail@,
        }
    }
}

/// First index at or after `i` whose byte is not whitespace; `s.len()`
/// when only whitespace remains.
pub open spec fn next_nonblank(s: Seq<u8>, i: int) -> int
    decreases s.len() - i when 0 <= i <= s.len()
{
    if i >= s.len() {
        i
    } else if is_blank(s[i]) {
        next_nonblank(s, i + 1)
    } else {
        i
    }
}

pub proof fn lemma_next_nonblank_char(s: Seq<u8>, i: int)
    requires
        0 <= i <= s.len(),
    ensures
        i <= next_nonblank(s, i) <= s.len(),
        next_nonblank(s, i) < s.len() ==> !is_blank(s[next_nonblank(s, i)]),
        forall|k: int| i <= k < next_nonblank(s, i) ==> is_blank(s[k]),
    decreases s.len() - i,
{
    if i < s.len() && is_blank(s[i]) {
        lemma_next_nonblank_char(s, i + 1);
    }
}

pub proof fn lemma_next_nonblank_at(s: Seq<u8>, i: int, p: int)
    requires
        0 <= i <= p <= s.len(),
        forall|k: int| i <= k < p ==> is_blank(s[k]),
        p < s.len() ==> !is_blank(s[p]),
    ensures
        next_nonblank(s, i) == p,
    decreases p - i,
{
    if i < p {
        lemma_next_nonblank_at(s, i + 1, p);
    }
}

/// Whether `s` opens with an interpreter directive: the two-byte `#!`
/// prefix whose first following non-whitespace byte — looking past line
/// breaks, as the language grammar does — is not `[` (which would make
/// the opening an inner attribute instead).
pub open spec fn is_directive_start(s: Seq<u8>) -> bool {
    &&& s.len() >= 2
    &&& s[0] == HASH
    &&& s[1] == BANG
    &&& {
        let j = next_nonblank(s, 2);
        !(j < s.len() && s[j] == LBRACKET)
    }
}

/// Whether `s` begins with a full, newline-terminated directive line.
pub open spec fn has_directive(s: Seq<u8>) -> bool {
    is_directive_start(s) && first_nl(s) is Some
}

/// The directive line (without newline) and the remaining bytes.
pub open spec fn directive_split(s: Seq<u8>) -> (Option<Seq<u8>>, Seq<u8>) {
    if has_directive(s) {
        let i = first_nl(s)->Some_0;
        (Some(s.subrange(0, i)), s.subrange(i + 1, s.len() as int))
    } else {
        (None, s)
    }
}

/// Whether `s` begins with a full, newline-terminated doc-comment line.
pub open spec fn is_doc_line_start(s: Seq<u8>) -> bool {
    &&& s.len() >= 3
    &&& s[0] == SLASH
    &&& s[1] == SLASH
    &&& s[2] == BANG
    &&& first_nl(s) is Some
}

/// The rendered content of a doc-comment line: the marker and at most one
/// following space removed.
pub open spec fn strip_marker(line: Seq<u8>) -> Seq<u8>
    recommends
        line.len() >= 3,
{
    if line.len() >= 4 && line[3] == SPACE {
        line.subrange(4, line.len() as int)
    } else {
        line.subrange(3, line.len() as int)
    }
}

/// The doc-comment run at the start of `s` (stripped line contents) and
/// the first byte position after it, as (lines, tail).
pub open spec fn doc_split(s: Seq<u8>) -> (Seq<Seq<u8>>, Seq<u8>)
    decreases s.len(),
    via doc_split_decreases
{
    if is_doc_line_start(s) {
        let i = first_nl(s)->Some_0;
        let rec = doc_split(s.subrange(i + 1, s.len() as int));
        (seq![strip_marker(s.subrange(0, i))] + rec.0, rec.1)
    } else {
        (seq![], s)
    }
}

#[via_fn]
proof fn doc_split_decreases(s: Seq<u8>) {
    if is_doc_line_start(s) {
        lemma_first_nl(s);
    }
}

/// What parsing a byte sequence yields.
pub open spec fn parse_spec(s: Seq<u8>) -> ScriptView {
    let d = directive_split(s);
    let rest = doc_split(d.1);
    ScriptView { directive: d.0, doc: rest.0, tail: rest.1 }
}

/// One doc line as it appears in the file, without its newline.
pub open spec fn render_doc_line(l: Seq<u8>) -> Seq<u8> {
    if l.len() == 0 {
        doc_marker()
    } else {
        doc_marker() + seq![SPACE] + l
    }
}

/// The doc-comment run as it appears in the file.
pub open spec fn render_doc(lines: Seq<Seq<u8>>) -> Seq<u8>
    decreases lines.len(),
{
    if lines.len() == 0 {
        seq![]
    } else {
        render_doc_line(lines[0]) + seq![NL] + render_doc(lines.drop_first())
    }
}

/// The whole file as bytes.
pub open spec fn render_spec(v: ScriptView) -> Seq<u8> {
    (match v.directive {
        Some(d) => d + seq![NL],
        None => Seq::<u8>::empty(),
    }) + render_doc(v.doc) + v.tail
}

/// Structural well-formedness: the directive is a plausible single line and
/// no stored line holds a newline of its own.
pub open spec fn wf_view(v: ScriptView) -> bool {
    &&& match v.directive {
        Some(d) => is_directive_start(d) && forall|i: int| 0 <= i < d.len() ==> d[i] != NL,
        None => true,
    }
    &&& forall|i: int, j: int|
        0 <= i < v.doc.len() && 0 <= j < v.doc[i].len() ==> #[trigger] v.doc[i][j] != NL
}

/// The extra conditions under which rendering then parsing restores the
/// value exactly: the tail must not begin with a doc-comment line that the
/// parser would absorb; when nothing precedes it, not with a directive
/// line either; and a directive followed directly by the tail must still
/// read as a directive there (its whitespace run must not lead onto a
/// `[`, which would turn it into an attribute).
pub open spec fn renders_cleanly(v: ScriptView) -> bool {
    &&& wf_view(v)
    &&& !is_doc_line_start(v.tail)
    &&& (v.directive is None && v.doc.len() == 0 ==> !has_directive(v.tail))
    &&& (v.directive is Some && v.doc.len() == 0 ==> is_directive_start(render_spec(v)))
}

impl ScriptFile {
    /// Structural well-formedness of the executable value.
    pub open spec fn wf(&self) -> bool {
        wf_view(self@)
    }
}

/// Splits raw file bytes into directive, doc-comment run and tail. Total:
/// any input parses, though possibly into an empty doc run.
pub fn parse_script(src: &Vec<u8>) -> (f: ScriptFile)
    ensures
        f@ == parse_spec(src@),
{
    let ghost whole = src@;
    let mut pos: usize = 0;
    let mut directive: Option<Vec<u8>> = None;

    if src.len() >= 2 && src[0] == HASH && src[1] == BANG {
        let mut j: usize = 2;
        while j < src.len() && (src[j] == SPACE || src[j] == TAB || src[j] == NL || src[j] == CR)
            invariant
                2 <= j <= src@.len(),
                whole == src@,
                next_nonblank(whole, 2) == next_nonblank(whole, j as int),
            decreases src.len() - j,
        {
            j += 1;
        }
        assert(next_nonblank(whole, 2) == j);
        let attr = j < src.len() && src[j] == LBRACKET;
        if !attr {
            assert(is_directive_start(whole));
            match find_nl(src, 0) {
                Some(i) => {
                    proof {
                        assert(whole.subrange(0, whole.len() as int) =~= whole);
                    }
                    assert(has_directive(whole));
                    directive = Some(crate::bytes_util::copy_range(src, 0, i));
                    pos = i + 1;
                },
                None => {
                    proof {
                        assert(whole.subrange(0, whole.len() as int) =~= whole);
                    }
                    assert(!has_directive(whole));
                },
            }
        } else {
            assert(next_nonblank(whole, 2) < whole.len() && whole[next_nonblank(whole, 2)]
                == LBRACKET);
            assert(!is_directive_start(whole));
        }
    } else {
        assert(!is_directive_start(whole));
    }

    let ghost rest0 = whole.subrange(pos as int, whole.len() as int);
    proof {
        if pos == 0 {
            assert(rest0 =~= whole);
            assert(directive_split(whole).0 is None && directive_split(whole).1 == whole);
        }
    }
    assert(directive_split(whole).1 == rest0);
    assert(match directive {
        Some(d) => directive_split(whole).0 == Some(d@),
        None => directive_split(whole).0 is None,
    });

    let mut doc: Vec<Vec<u8>> = Vec::new();
    loop
        invariant
            pos <= src@.len(),
            whole == src@,
            doc_split(rest0).0 == doc.deep_view() + doc_split(
                whole.subrange(pos as int, whole.len() as int),
            ).0,
            doc_split(rest0).1 == doc_split(whole.subrange(pos as int, whole.len() as int)).1,
        ensures
            pos <= src@.len(),
            whole == src@,
            !is_doc_line_start(whole.subrange(pos as int, whole.len() as int)),
            doc_split(rest0).0 == doc.deep_view() + doc_split(
                whole.subrange(pos as int, whole.len() as int),
            ).0,
            doc_split(rest0).1 == doc_split(whole.subrange(pos as int, whole.len() as int)).1,
        decreases src@.len() - pos,
    {
        let ghost cur = whole.subrange(pos as int, whole.len() as int);
        let is_doc = src.len() - pos >= 3 && src[pos] == SLASH && src[pos + 1] == SLASH && src[pos
            + 2] == BANG;
        if !is_doc {
            assert(!is_doc_line_start(cur));
            break;
        }
        match find_nl(src, pos) {
            None => {
                assert(!is_doc_line_start(cur));
                break;
            },
            Some(i) => {
                assert(first_nl(cur) == Some(i - pos));
                assert(is_doc_line_start(cur));
                proof {
                    lemma_first_nl(cur);
                    assert(cur[0] != NL && cur[1] != NL && cur[2] != NL);
                    assert(i - pos >= 3);
                }
                let ghost line = cur.subrange(0, i - pos);
                proof {
                    assert(line =~= whole.subrange(pos as int, i as int));
                    assert(line.len() >= 3);
                    if line.len() >= 4 {
                        assert(line[3] == whole[pos + 3]);
                    }
                }
                let stripped: Vec<u8> = if i - pos >= 4 && src[pos + 3] == SPACE {
                    crate::bytes_util::copy_range(src, pos + 4, i)
                } else {
                    crate::bytes_util::copy_range(src, pos + 3, i)
                };
                proof {
                    assert(strip_marker(line) =~= stripped@);
                    let nxt = whole.subrange(i + 1, whole.len() as int);
                    assert(cur.subrange(i - pos + 1, cur.len() as int) =~= nxt);
                    assert(doc_split(cur).0 =~~= seq![strip_marker(line)] + doc_split(nxt).0);
                    assert(doc.deep_view() + doc_split(cur).0 =~~= doc.deep_view().push(stripped@)
                        + doc_split(nxt).0);
                }
                let ghost old_doc = doc.deep_view();
                doc.push(stripped);
                proof {
                    assert(doc.deep_view() =~~= old_doc.push(stripped@));
                }
                pos = i + 1;
            },
        }
    }

    let tail = crate::bytes_util::copy_range(src, pos, src.len());
    proof {
        let cur = whole.subrange(pos as int, whole.len() as int);
        assert(doc_split(cur).0 =~~= Seq::<Seq<u8>>::empty());
        assert(doc.deep_view() + Seq::<Seq<u8>>::empty() =~~= doc.deep_view());
    }
    ScriptFile { directive, doc, tail }
}

/// A rendered doc line never holds a newline (given its content has none),
/// opens with the marker, and strips back to its content.
proof fn lemma_render_doc_line_facts(l: Seq<u8>)
    requires
        forall|j: int| 0 <= j < l.len() ==> l[j] != NL,
    ensures
        render_doc_line(l).len() >= 3,
        forall|j: int| 0 <= j < render_doc_line(l).len() ==> #[trigger] render_doc_line(l)[j]
            != NL,
        render_doc_line(l)[0] == SLASH,
        render_doc_line(l)[1] == SLASH,
        render_doc_line(l)[2] == BANG,
        strip_marker(render_doc_line(l)) == l,
{
    let rl = render_doc_line(l);
    if l.len() == 0 {
        assert(strip_marker(rl) =~= l);
    } else {
        assert(rl[3] == SPACE);
        assert(strip_marker(rl) =~= l);
    }
}

/// Splitting a rendered doc run off the front of a byte sequence restores
/// the lines and the tail, provided the tail does not itself begin with a
/// doc-comment line.
proof fn lemma_doc_split_render(doc: Seq<Seq<u8>>, tail: Seq<u8>)
    requires
        forall|i: int, j: int|
            0 <= i < doc.len() && 0 <= j < doc[i].len() ==> #[trigger] doc[i][j] != NL,
        !is_doc_line_start(tail),
    ensures
        doc_split(render_doc(doc) + tail).0 == doc,
        doc_split(render_doc(doc) + tail).1 == tail,
    decreases doc.len(),
{
    if doc.len() == 0 {
        assert(render_doc(doc) + tail =~= tail);
        assert(doc_split(tail).0 =~~= doc);
    } else {
        let l0 = doc[0];
        let rl = render_doc_line(l0);
        let rest = render_doc(doc.drop_first()) + tail;
        let s = render_doc(doc) + tail;
        lemma_render_doc_line_facts(l0);
        assert(s =~= rl + seq![NL] + rest);
        assert(forall|j: int| 0 <= j < rl.len() ==> s[j] == rl[j]);
        assert(s[rl.len() as int] == NL);
        lemma_first_nl_prefix(s, s, rl.len() as int);
        assert(is_doc_line_start(s));
        assert(s.subrange(0, rl.len() as int) =~= rl);
        assert(s.subrange(rl.len() as int + 1, s.len() as int) =~= rest);
        lemma_doc_split_render(doc.drop_first(), tail);
        assert(doc_split(s).0 =~~= seq![l0] + doc.drop_first());
        assert(seq![l0] + doc.drop_first() =~~= doc);
    }
}

/// A directive line followed by a non-empty doc run still reads as a
/// directive in the rendered file: the whitespace run after `#!` ends at
/// a byte of the line itself, or at the first doc line's marker, never at
/// a `[`.
proof fn lemma_directive_render_nonempty(d: Seq<u8>, doc: Seq<Seq<u8>>, tail: Seq<u8>)
    requires
        is_directive_start(d),
        doc.len() > 0,
    ensures
        is_directive_start(
            render_spec(ScriptView { directive: Some(d), doc, tail }),
        ),
{
    let v = ScriptView { directive: Some(d), doc, tail };
    let s = render_spec(v);
    assert(s =~= d + seq![NL] + (render_doc(doc) + tail));
    assert(forall|j: int| 0 <= j < d.len() ==> s[j] == d[j]);
    assert(s[d.len() as int] == NL);
    let rl = render_doc_line(doc[0]);
    assert(rl[0] == SLASH);
    assert(s[d.len() as int + 1] == SLASH);
    lemma_next_nonblank_char(d, 2);
    let jd = next_nonblank(d, 2);
    if jd < d.len() {
        assert(forall|k: int| 2 <= k < jd ==> is_blank(s[k]));
        lemma_next_nonblank_at(s, 2, jd);
        assert(s[jd] == d[jd]);
        assert(d[jd] != LBRACKET);
    } else {
        assert(forall|k: int| 2 <= k < d.len() as int + 1 ==> is_blank(s[k]));
        lemma_next_nonblank_at(s, 2, d.len() as int + 1);
        assert(s[next_nonblank(s, 2)] == SLASH);
    }
    assert(is_directive_start(s));
}

/// Parsing undoes rendering: for a well-formed value whose tail cannot be
/// mistaken for more leading lines, the rendered file parses back to the
/// same value.
pub proof fn lemma_parse_render(v: ScriptView)
    requires
        renders_cleanly(v),
    ensures
        parse_spec(render_spec(v)) == v,
{
    let s = render_spec(v);
    let body = render_doc(v.doc) + v.tail;
    match v.directive {
        Some(d) => {
            assert(s =~= d + seq![NL] + body);
            assert(forall|j: int| 0 <= j < d.len() ==> s[j] == d[j]);
            assert(s[d.len() as int] == NL);
            if v.doc.len() > 0 {
                lemma_directive_render_nonempty(d, v.doc, v.tail);
            }
            assert(is_directive_start(s));
            lemma_first_nl_prefix(s, s, d.len() as int);
            assert(has_directive(s));
            assert(s.subrange(0, d.len() as int) =~= d);
            assert(s.subrange(d.len() as int + 1, s.len() as int) =~= body);
            lemma_doc_split_render(v.doc, v.tail);
            assert(parse_spec(s) == v);
        },
        None => {
            assert(s =~= body);
            if v.doc.len() > 0 {
                lemma_render_doc_line_facts(v.doc[0]);
                assert(s[0] == SLASH);
                assert(!is_directive_start(s));
            } else {
                assert(s =~= v.tail);
                assert(!has_directive(s));
            }
            assert(directive_split(s).0 is None);
            assert(directive_split(s).1 == s);
            lemma_doc_split_render(v.doc, v.tail);
            assert(doc_split(s).0 == v.doc && doc_split(s).1 == v.tail) by {
                assert(s == render_doc(v.doc) + v.tail);
            }
            assert(parse_spec(s) == v);
        },
    }
}

/// Whether raw bytes are in the exact form that `render_script` emits:
/// parsing and re-rendering reproduces them byte for byte.
pub open spec fn canonical_source(s: Seq<u8>) -> bool {
    render_spec(parse_spec(s)) == s
}

proof fn lemma_doc_split_props(s: Seq<u8>)
    ensures
        forall|i: int, j: int|
            0 <= i < doc_split(s).0.len() && 0 <= j < doc_split(s).0[i].len()
                ==> #[trigger] doc_split(s).0[i][j] != NL,
        !is_doc_line_start(doc_split(s).1),
    decreases s.len(),
{
    if is_doc_line_start(s) {
        lemma_first_nl(s);
        let i = first_nl(s)->Some_0;
        let line = s.subrange(0, i);
        let rest = s.subrange(i + 1, s.len() as int);
        lemma_doc_split_props(rest);
        assert(forall|j: int| 0 <= j < line.len() ==> line[j] != NL);
        assert(forall|j: int| 0 <= j < strip_marker(line).len() ==> strip_marker(line)[j] != NL);
        let lines = doc_split(s).0;
        assert(lines =~~= seq![strip_marker(line)] + doc_split(rest).0);
        assert forall|a: int, b: int|
            0 <= a < lines.len() && 0 <= b < lines[a].len() implies #[trigger] lines[a][b]
            != NL by {
            if a == 0 {
                assert(lines[0] == strip_marker(line));
            } else {
                assert(lines[a] == doc_split(rest).0[a - 1]);
            }
        }
    }
}

/// Parsing always yields a value that renders back faithfully: the pieces
/// are well formed, the tail cannot be mistaken for more doc lines, and an
/// empty front cannot be mistaken for a directive.
pub proof fn lemma_parse_renders_cleanly(s: Seq<u8>)
    ensures
        renders_cleanly(parse_spec(s)),
{
    let d = directive_split(s);
    lemma_doc_split_props(d.1);
    if has_directive(s) {
        lemma_first_nl(s);
        let i = first_nl(s)->Some_0;
        let dir = s.subrange(0, i);
        assert(s[0] != NL && s[1] != NL);
        assert(i >= 2);
        assert(dir.len() >= 2 && dir[0] == HASH && dir[1] == BANG);
        assert(s.len() > dir.len() && s[dir.len() as int] == NL);
        assert(forall|j: int| 0 <= j < dir.len() ==> s[j] == dir[j]);
        lemma_next_nonblank_char(s, 2);
        let j = next_nonblank(s, 2);
        if j < i {
            assert(forall|k: int| 2 <= k < j ==> is_blank(dir[k]));
            assert(!is_blank(dir[j]));
            lemma_next_nonblank_at(dir, 2, j);
            assert(s[j] != LBRACKET);
            assert(dir[j] != LBRACKET);
        } else {
            assert(forall|k: int| 2 <= k < dir.len() ==> is_blank(dir[k]));
            lemma_next_nonblank_at(dir, 2, dir.len() as int);
        }
        assert(is_directive_start(dir));
        assert(forall|j2: int| 0 <= j2 < dir.len() ==> dir[j2] != NL);
        let v = parse_spec(s);
        if v.doc.len() == 0 {
            let rest = s.subrange(i + 1, s.len() as int);
            assert(v.tail == rest);
            assert(render_spec(v) =~= s);
            assert(is_directive_start(render_spec(v)));
        }
    } else {
        if parse_spec(s).doc.len() == 0 {
            assert(parse_spec(s).tail == s);
        }
    }
}

proof fn lemma_render_doc_add(a: Seq<Seq<u8>>, b: Seq<Seq<u8>>)
    ensures
        render_doc(a + b) == render_doc(a) + render_doc(b),
    decreases a.len(),
{
    if a.len() == 0 {
        assert(a + b =~~= b);
        assert(render_doc(a + b) =~= render_doc(a) + render_doc(b));
    } else {
        assert((a + b).drop_first() =~~= a.drop_first() + b);
        lemma_render_doc_add(a.drop_first(), b);
        assert(render_doc(a + b) =~= render_doc(a) + render_doc(b));
    }
}

proof fn lemma_render_doc_push(a: Seq<Seq<u8>>, l: Seq<u8>)
    ensures
        render_doc(a.push(l)) == render_doc(a) + render_doc_line(l) + seq![NL],
{
    assert(a.push(l) =~~= a + seq![l]);
    lemma_render_doc_add(a, seq![l]);
    assert(seq![l].drop_first() =~~= Seq::<Seq<u8>>::empty());
    assert(seq![l].len() == 1);
    assert(seq![l][0] == l);
    assert(render_doc(seq![l].drop_first()) == Seq::<u8>::empty());
    assert(render_doc(seq![l]) =~= render_doc_line(l) + seq![NL]);
    assert(render_doc(a.push(l)) =~= render_doc(a) + render_doc_line(l) + seq![NL]);
}

/// Serialises a `ScriptFile` back into file bytes.
pub fn render_script(f: &ScriptFile) -> (out: Vec<u8>)
    ensures
        out@ == render_spec(f@),
{
    let mut out: Vec<u8> = Vec::new();
    match &f.directive {
        Some(d) => {
            crate::bytes_util::append_bytes(&mut out, d);
            out.push(NL);
            proof {
                assert(out@ =~= d@ + seq![NL]);
            }
        },
        None => {},
    }
    let ghost dir_part = out@;

    let mut k: usize = 0;
    proof {
        assert(f@.doc.take(0) =~~= Seq::<Seq<u8>>::empty());
        assert(out@ =~= dir_part + render_doc(f@.doc.take(0)));
    }
    while k < f.doc.len()
        invariant
            k <= f@.doc.len(),
            f@.doc == f.doc.deep_view(),
            out@ == dir_part + render_doc(f@.doc.take(k as int)),
        decreases f.doc.len() - k,
    {
        let l = &f.doc[k];
        out.push(SLASH);
        out.push(SLASH);
        out.push(BANG);
        if l.len() > 0 {
            out.push(SPACE);
            crate::bytes_util::append_bytes(&mut out, l);
        }
        out.push(NL);
        proof {
            lemma_render_doc_push(f@.doc.take(k as int), f@.doc[k as int]);
            assert(f@.doc.take(k + 1) =~~= f@.doc.take(k as int).push(f@.doc[k as int]));
            assert(out@ =~= dir_part + render_doc(f@.doc.take(k as int)) + render_doc_line(
                f@.doc[k as int],
            ) + seq![NL]);
            assert(out@ =~= dir_part + render_doc(f@.doc.take(k + 1)));
        }
        k += 1;
    }
    proof {
        assert(f@.doc.take(f@.doc.len() as int) =~~= f@.doc);
    }
    crate::bytes_util::append_bytes(&mut out, &f.tail);
    proof {
        assert(out@ =~= render_spec(f@));
    }
    out
}

/// Dropping one ASCII byte from the front of a valid UTF-8 sequence, at
/// any position holding one, leaves the remainder valid: an ASCII byte is
/// a whole one-byte scalar.
proof fn lemma_utf8_after_ascii(b: Seq<u8>, i: int)
    requires
        vstd::utf8::valid_utf8(b),
        0 <= i < b.len(),
        b[i] < 0x80,
    ensures
        vstd::utf8::valid_utf8(b.subrange(i + 1, b.len() as int)),
{
    vstd::utf8::is_char_boundary_iff_not_is_continuation_byte(b, i);
    assert(!vstd::utf8::is_continuation_byte(b[i]));
    vstd::utf8::valid_utf8_split(b, i);
    let suff = b.subrange(i, b.len() as int);
    assert(vstd::utf8::valid_utf8(suff));
    assert(suff.len() > 0 && suff[0] == b[i]);
    assert(vstd::utf8::is_leading_byte_width_1(suff[0]));
    assert(vstd::utf8::length_of_first_scalar(suff) == 1);
    assert(vstd::utf8::valid_utf8(vstd::utf8::pop_first_scalar(suff)));
    assert(vstd::utf8::pop_first_scalar(suff) =~= b.subrange(i + 1, b.len() as int));
}

/// Dropping an all-ASCII prefix of a valid UTF-8 sequence leaves the
/// remainder valid.
proof fn lemma_utf8_drop_prefix_ascii(b: Seq<u8>, k: int)
    requires
        vstd::utf8::valid_utf8(b),
        0 <= k <= b.len(),
        forall|j: int| 0 <= j < k ==> b[j] < 0x80,
    ensures
        vstd::utf8::valid_utf8(b.subrange(k, b.len() as int)),
    decreases k,
{
    if k == 0 {
        assert(b.subrange(0, b.len() as int) =~= b);
    } else {
        lemma_utf8_after_ascii(b, 0);
        let t = b.subrange(1, b.len() as int);
        assert(forall|j: int| 0 <= j < k - 1 ==> #[trigger] t[j] == b[j + 1]);
        lemma_utf8_drop_prefix_ascii(t, k - 1);
        assert(t.subrange(k - 1, t.len() as int) =~= b.subrange(k, b.len() as int));
    }
}

/// Cutting a valid UTF-8 sequence right before an ASCII byte leaves the
/// prefix valid.
proof fn lemma_utf8_take_upto_ascii(b: Seq<u8>, k: int)
    requires
        vstd::utf8::valid_utf8(b),
        0 <= k < b.len(),
        b[k] < 0x80,
    ensures
        vstd::utf8::valid_utf8(b.subrange(0, k)),
{
    vstd::utf8::is_char_boundary_iff_not_is_continuation_byte(b, k);
    assert(!vstd::utf8::is_continuation_byte(b[k]));
    vstd::utf8::valid_utf8_split(b, k);
}

/// A single newline byte is valid UTF-8.
proof fn lemma_utf8_nl_singleton()
    ensures
        vstd::utf8::valid_utf8(seq![NL]),
{
    let s = seq![NL];
    assert(s.len() == 1 && s[0] == NL);
    assert(vstd::utf8::is_leading_byte_width_1(s[0]));
    assert(vstd::utf8::valid_leading_and_continuation_bytes_first_codepoint(s));
    assert(vstd::utf8::length_of_first_codepoint(s) == 1);
    assert(10u8 & 0x7f == 10u8) by (bit_vector);
    assert(vstd::utf8::decode_first_codepoint(s) == 10u32);
    assert(vstd::utf8::not_overlong_encoding(10u32, 1));
    assert(vstd::utf8::not_surrogate(10u32));
    assert(vstd::utf8::valid_first_scalar(s));
    assert(vstd::utf8::pop_first_scalar(s) =~= Seq::<u8>::empty());
    assert(vstd::utf8::valid_utf8(vstd::utf8::pop_first_scalar(s)));
    assert(vstd::utf8::valid_utf8(s));
}

/// The doc-comment lines carved out of valid UTF-8 bytes, rejoined with
/// newlines, are valid UTF-8: every cut happens next to an ASCII byte
/// (the newline or the comment marker), which is always a whole scalar.
proof fn lemma_doc_split_utf8(rest: Seq<u8>)
    requires
        vstd::utf8::valid_utf8(rest),
    ensures
        vstd::utf8::valid_utf8(crate::bytes_util::joined(doc_split(rest).0)),
    decreases rest.len(),
{
    if is_doc_line_start(rest) {
        lemma_first_nl(rest);
        let i = first_nl(rest)->Some_0;
        assert(rest[i] == NL && NL < 0x80);
        let line = rest.subrange(0, i);
        lemma_utf8_take_upto_ascii(rest, i);
        assert(vstd::utf8::valid_utf8(line));
        let content = strip_marker(line);
        assert(line[0] == SLASH && line[1] == SLASH && line[2] == BANG);
        if line.len() >= 4 && line[3] == SPACE {
            assert(forall|j: int| 0 <= j < 4 ==> line[j] < 0x80);
            lemma_utf8_drop_prefix_ascii(line, 4);
            assert(content =~= line.subrange(4, line.len() as int));
        } else {
            assert(forall|j: int| 0 <= j < 3 ==> line[j] < 0x80);
            lemma_utf8_drop_prefix_ascii(line, 3);
            assert(content =~= line.subrange(3, line.len() as int));
        }
        assert(vstd::utf8::valid_utf8(content));
        let nxt = rest.subrange(i + 1, rest.len() as int);
        lemma_utf8_after_ascii(rest, i);
        lemma_doc_split_utf8(nxt);
        let tail_lines = doc_split(nxt).0;
        assert(doc_split(rest).0 =~~= seq![content] + tail_lines);
        crate::bytes_util::lemma_joined_add(seq![content], tail_lines);
        crate::bytes_util::lemma_joined_one(content);
        lemma_utf8_nl_singleton();
        vstd::utf8::valid_utf8_concat(content, seq![NL]);
        vstd::utf8::valid_utf8_concat(content + seq![NL], crate::bytes_util::joined(tail_lines));
        assert(crate::bytes_util::joined(doc_split(rest).0) =~= (content + seq![NL])
            + crate::bytes_util::joined(tail_lines));
    } else {
        assert(doc_split(rest).0 =~~= Seq::<Seq<u8>>::empty());
        assert(crate::bytes_util::joined(doc_split(rest).0) =~= Seq::<u8>::empty());
    }
}

/// A valid UTF-8 source yields a valid UTF-8 rendered doc: the markdown
/// surface handed to the fence locator never needs its own encoding gate.
pub proof fn lemma_parse_doc_utf8(s: Seq<u8>)
    requires
        vstd::utf8::valid_utf8(s),
    ensures
        vstd::utf8::valid_utf8(crate::bytes_util::joined(parse_spec(s).doc)),
{
    if has_directive(s) {
        lemma_first_nl(s);
        let i = first_nl(s)->Some_0;
        assert(s[i] == NL && NL < 0x80);
        lemma_utf8_after_ascii(s, i);
        lemma_doc_split_utf8(s.subrange(i + 1, s.len() as int));
    } else {
        lemma_doc_split_utf8(s);
    }
}

} // verus!
