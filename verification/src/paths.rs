//! Symbolic path algebra for workspace membership: splitting a path into
//! segments, resolving one path against a root, and deciding when two
//! entries name the same member. Everything is plain character work on
//! `/`-separated paths; nothing consults a filesystem. Empty and `.`
//! segments are dropped, `..` is kept literally, and an absolute path
//! replaces the root it is joined to.

use vstd::prelude::*;

verus! {

/// `/` as a character.
pub open spec fn sep() -> char {
    '/'
}

/// Whether a path is absolute: it begins with the separator.
pub open spec fn is_abs(s: Seq<char>) -> bool {
    s.len() > 0 && s[0] == sep()
}

/// First index at or after `i` holding the separator, or the length.
pub open spec fn seg_end(s: Seq<char>, i: int) -> int
    decreases s.len() - i when 0 <= i <= s.len()
{
    if i >= s.len() {
        i
    } else if s[i] == sep() {
        i
    } else {
        seg_end(s, i + 1)
    }
}

pub proof fn lemma_seg_end(s: Seq<char>, i: int)
    requires
        0 <= i <= s.len(),
    ensures
        i <= seg_end(s, i) <= s.len(),
        seg_end(s, i) < s.len() ==> s[seg_end(s, i)] == sep(),
        forall|j: int| i <= j < seg_end(s, i) ==> s[j] != sep(),
    decreases s.len() - i,
{
    if i < s.len() && s[i] != sep() {
        lemma_seg_end(s, i + 1);
    }
}

/// Whether a segment is dropped by normalisation: empty or a bare `.`.
pub open spec fn skippable(seg: Seq<char>) -> bool {
    seg.len() == 0 || seg == seq!['.']
}

/// The meaningful segments of the path from position `i` on.
pub open spec fn segs_from(s: Seq<char>, i: int) -> Seq<Seq<char>>
    decreases s.len() - i when 0 <= i <= s.len()
    via segs_from_decreases
{
    if i >= s.len() {
        seq![]
    } else {
        let e = seg_end(s, i);
        let seg = s.subrange(i, e);
        let rest = if e >= s.len() {
            seq![]
        } else {
            segs_from(s, e + 1)
        };
        if skippable(seg) {
            rest
        } else {
            seq![seg] + rest
        }
    }
}

#[via_fn]
proof fn segs_from_decreases(s: Seq<char>, i: int) {
    if 0 <= i < s.len() {
        lemma_seg_end(s, i);
    }
}

/// The meaningful segments of a path.
pub open spec fn path_segs(s: Seq<char>) -> Seq<Seq<char>> {
    segs_from(s, 0)
}

/// A path resolved against a root: its own shape if absolute, otherwise
/// the root's absoluteness with the segments concatenated.
pub open spec fn resolved(root: Seq<char>, p: Seq<char>) -> (bool, Seq<Seq<char>>) {
    if is_abs(p) {
        (true, path_segs(p))
    } else {
        (is_abs(root), path_segs(root) + path_segs(p))
    }
}

/// Whether two paths name the same place once both are resolved against
/// the same root.
pub open spec fn same_under(root: Seq<char>, a: Seq<char>, b: Seq<char>) -> bool {
    resolved(root, a) == resolved(root, b)
}

/// Segments joined back into a relative path, one separator between each.
pub open spec fn join_segs(segs: Seq<Seq<char>>) -> Seq<char> {
    join_head(segs, segs.len() as int)
}

/// A path made relative to a root: when the root's resolved form is a
/// prefix of the path's, the remaining segments joined; otherwise the
/// path unchanged.
pub open spec fn rel_spec(p: Seq<char>, root: Seq<char>) -> Seq<char> {
    if is_abs(p) == is_abs(root) && path_segs(root).is_prefix_of(path_segs(p)) {
        join_segs(path_segs(p).skip(path_segs(root).len() as int))
    } else {
        p
    }
}

/// Splits a path into its meaningful segments.
pub fn segments(s: &str) -> (r: Vec<String>)
    ensures
        r.deep_view() == path_segs(s@),
{
    let n = s.unicode_len();
    let mut r: Vec<String> = Vec::new();
    let mut i: usize = 0;
    proof {
        assert(r.deep_view() + segs_from(s@, 0) =~~= segs_from(s@, 0));
    }
    while i < n
        invariant
            0 <= i <= n,
            n == s@.len(),
            path_segs(s@) == r.deep_view() + segs_from(s@, i as int),
        decreases n - i,
    {
        let mut e: usize = i;
        while e < n && s.get_char(e) != '/'
            invariant
                i <= e <= n,
                n == s@.len(),
                forall|j: int| i <= j < e ==> s@[j] != sep(),
            decreases n - e,
        {
            e += 1;
        }
        proof {
            lemma_seg_end(s@, i as int);
            if e < n {
                assert(s@[e as int] == sep());
            }
            if seg_end(s@, i as int) < e {
                assert(s@[seg_end(s@, i as int)] == sep());
            }
            assert(seg_end(s@, i as int) == e);
        }
        let seg = s.substring_char(i, e);
        let ghost segv = s@.subrange(i as int, e as int);
        let skip = seg.unicode_len() == 0 || (seg.unicode_len() == 1 && seg.get_char(0) == '.');
        proof {
            if skip {
                if segv.len() == 1 {
                    assert(segv =~= seq!['.']);
                }
                assert(skippable(segv));
            } else {
                assert(!skippable(segv));
            }
        }
        let ghost rest = if e >= n {
            Seq::<Seq<char>>::empty()
        } else {
            segs_from(s@, e + 1)
        };
        proof {
            if skip {
                assert(segs_from(s@, i as int) == rest);
            } else {
                assert(segs_from(s@, i as int) == seq![segv] + rest);
            }
        }
        if !skip {
            let owned = String::from_str(seg);
            let ghost old_r = r.deep_view();
            r.push(owned);
            proof {
                assert(r.deep_view() =~~= old_r.push(segv));
                assert(old_r.push(segv) + rest =~~= old_r + (seq![segv] + rest));
            }
        }
        if e >= n {
            proof {
                assert(segs_from(s@, n as int) =~~= Seq::<Seq<char>>::empty());
                assert(r.deep_view() + segs_from(s@, n as int) =~~= r.deep_view() + rest);
            }
            i = n;
        } else {
            i = e + 1;
        }
    }
    proof {
        assert(segs_from(s@, n as int) =~~= Seq::<Seq<char>>::empty());
        assert(r.deep_view() + Seq::<Seq<char>>::empty() =~~= r.deep_view());
    }
    r
}

/// Exact character equality of two string slices.
pub fn str_eq(a: &str, b: &str) -> (r: bool)
    ensures
        r == (a@ == b@),
{
    let na = a.unicode_len();
    let nb = b.unicode_len();
    if na != nb {
        assert(a@ != b@);
        return false;
    }
    let mut i: usize = 0;
    while i < na
        invariant
            i <= na,
            na == a@.len(),
            nb == b@.len(),
            na == nb,
            forall|j: int| 0 <= j < i ==> a@[j] == b@[j],
        decreases na - i,
    {
        if a.get_char(i) != b.get_char(i) {
            return false;
        }
        i += 1;
    }
    assert(a@ =~= b@);
    true
}

/// Whether a path is absolute.
pub fn is_absolute(s: &str) -> (r: bool)
    ensures
        r == is_abs(s@),
{
    s.unicode_len() > 0 && s.get_char(0) == '/'
}

fn string_seqs_eq(a: &Vec<String>, b: &Vec<String>) -> (r: bool)
    ensures
        r == (a.deep_view() == b.deep_view()),
{
    if a.len() != b.len() {
        assert(a.deep_view().len() != b.deep_view().len());
        return false;
    }
    let mut i: usize = 0;
    while i < a.len()
        invariant
            i <= a@.len(),
            a.deep_view().len() == a@.len(),
            b.deep_view().len() == b@.len(),
            a@.len() == b@.len(),
            forall|j: int| 0 <= j < i ==> a.deep_view()[j] == b.deep_view()[j],
        decreases a.len() - i,
    {
        if !(a[i] == b[i]) {
            assert(a.deep_view()[i as int] == a@[i as int]@);
            assert(b.deep_view()[i as int] == b@[i as int]@);
            assert(a.deep_view() != b.deep_view());
            return false;
        }
        i += 1;
    }
    assert(a.deep_view() =~~= b.deep_view());
    true
}

fn append_strings(dst: &mut Vec<String>, src: &Vec<String>)
    ensures
        final(dst).deep_view() == old(dst).deep_view() + src.deep_view(),
{
    let ghost base = dst.deep_view();
    let ghost morev = src.deep_view();
    let mut t: usize = 0;
    proof {
        assert(base + morev.subrange(0, 0) =~~= base);
    }
    while t < src.len()
        invariant
            t <= src@.len(),
            morev == src.deep_view(),
            src.deep_view().len() == src@.len(),
            dst.deep_view() == base + morev.subrange(0, t as int),
        decreases src.len() - t,
    {
        let piece = String::from_str(src[t].as_str());
        let ghost old_v = dst.deep_view();
        dst.push(piece);
        proof {
            assert(dst.deep_view() =~~= old_v.push(morev[t as int]));
            assert(dst.deep_view() =~~= base + morev.subrange(0, t + 1));
        }
        t += 1;
    }
    proof {
        assert(morev.subrange(0, morev.len() as int) =~~= morev);
    }
}

/// Decides whether `a` and `b` name the same place under `root`.
pub fn same_path(root: &str, a: &str, b: &str) -> (r: bool)
    ensures
        r == same_under(root@, a@, b@),
{
    let a_abs = is_absolute(a);
    let b_abs = is_absolute(b);
    let root_abs = is_absolute(root);
    let ra_abs = if a_abs {
        true
    } else {
        root_abs
    };
    let rb_abs = if b_abs {
        true
    } else {
        root_abs
    };
    if ra_abs != rb_abs {
        return false;
    }
    let sa = if a_abs {
        segments(a)
    } else {
        let mut v = segments(root);
        let more = segments(a);
        append_strings(&mut v, &more);
        v
    };
    let sb = if b_abs {
        segments(b)
    } else {
        let mut v = segments(root);
        let more = segments(b);
        append_strings(&mut v, &more);
        v
    };
    string_seqs_eq(&sa, &sb)
}

/// Makes `p` relative to `root` where the root's resolved segments prefix
/// the path's; otherwise returns `p` unchanged.
pub fn relative_to_root(p: &str, root: &str) -> (r: String)
    ensures
        r@ == rel_spec(p@, root@),
{
    let p_abs = is_absolute(p);
    let root_abs = is_absolute(root);
    if p_abs != root_abs {
        return String::from_str(p);
    }
    let sp = segments(p);
    let sr = segments(root);
    if sr.len() > sp.len() {
        proof {
            assert(!path_segs(root@).is_prefix_of(path_segs(p@)));
        }
        return String::from_str(p);
    }
    let mut i: usize = 0;
    while i < sr.len()
        invariant
            i <= sr@.len(),
            sr.deep_view().len() == sr@.len(),
            sp.deep_view().len() == sp@.len(),
            sr@.len() <= sp@.len(),
            sr.deep_view() == path_segs(root@),
            sp.deep_view() == path_segs(p@),
            forall|j: int| 0 <= j < i ==> sr.deep_view()[j] == sp.deep_view()[j],
        decreases sr.len() - i,
    {
        if !(sr[i] == sp[i]) {
            proof {
                assert(sr.deep_view()[i as int] == sr@[i as int]@);
                assert(sp.deep_view()[i as int] == sp@[i as int]@);
                assert(path_segs(root@)[i as int] != path_segs(p@)[i as int]);
                if path_segs(root@).is_prefix_of(path_segs(p@)) {
                    assert(path_segs(root@) == path_segs(p@).subrange(
                        0,
                        path_segs(root@).len() as int,
                    ));
                    assert(path_segs(root@)[i as int] == path_segs(p@)[i as int]);
                }
            }
            return String::from_str(p);
        }
        i += 1;
    }
    proof {
        assert(path_segs(root@).is_prefix_of(path_segs(p@))) by {
            assert(path_segs(root@) =~~= path_segs(p@).subrange(
                0,
                path_segs(root@).len() as int,
            ));
        }
    }
    let rest = path_segs_tail(&sp, sr.len());
    rest
}

/// Joins the segments of `sp` from `from` on into one path string.
fn path_segs_tail(sp: &Vec<String>, from: usize) -> (r: String)
    requires
        from <= sp.deep_view().len(),
    ensures
        r@ == join_segs(sp.deep_view().skip(from as int)),
{
    let mut out = String::new();
    let mut i: usize = from;
    while i < sp.len()
        invariant
            from <= i <= sp@.len(),
            sp.deep_view().len() == sp@.len(),
            out@ == join_head(sp.deep_view().skip(from as int), i - from),
        decreases sp.len() - i,
    {
        if i > from {
            out.append("/");
        }
        out.append(sp[i].as_str());
        proof {
            reveal_strlit("/");
            assert("/"@ =~= seq![sep()]);
            let tailv = sp.deep_view().skip(from as int);
            lemma_join_head_step(tailv, i - from);
            assert(tailv[i - from] == sp.deep_view()[i as int]);
            assert(sp.deep_view()[i as int] == sp@[i as int]@);
            if i == from {
                assert(out@ =~= join_head(tailv, 1));
            } else {
                assert(out@ =~= join_head(tailv, i - from) + seq![sep()] + tailv[i - from]);
                assert(out@ =~= join_head(tailv, i - from + 1));
            }
        }
        i += 1;
    }
    out
}

/// The first `k` segments joined, used to verify incremental joining.
pub open spec fn join_head(segs: Seq<Seq<char>>, k: int) -> Seq<char>
    decreases k when k >= 0
{
    if k <= 0 {
        seq![]
    } else if k == 1 {
        segs[0]
    } else {
        join_head(segs, k - 1) + seq![sep()] + segs[k - 1]
    }
}

proof fn lemma_join_head_step(segs: Seq<Seq<char>>, k: int)
    requires
        0 <= k,
    ensures
        k == 0 ==> join_head(segs, 1) == segs[0],
        k > 0 ==> join_head(segs, k + 1) == join_head(segs, k) + seq![sep()] + segs[k],
{
}


} // verus!
