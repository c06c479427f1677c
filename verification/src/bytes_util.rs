//! Small byte-sequence helpers shared by the transcoder modules: newline
//! splitting, joining lines back into a flat byte sequence, and equality.

use vstd::prelude::*;

verus! {

/// Byte value of `\n`, the only line terminator the transcoder recognises.
pub const NL: u8 = 10;

/// Index of the first newline byte in `s`, if any.
pub open spec fn first_nl(s: Seq<u8>) -> Option<int>
    decreases s.len(),
{
    if s.len() == 0 {
        None
    } else if s[0] == NL {
        Some(0int)
    } else {
        match first_nl(s.drop_first()) {
            None => None,
            Some(i) => Some(i + 1),
        }
    }
}

/// What `first_nl` returns is the least newline position, and there is none
/// when it returns `None`.
pub proof fn lemma_first_nl(s: Seq<u8>)
    ensures
        match first_nl(s) {
            None => forall|i: int| 0 <= i < s.len() ==> s[i] != NL,
            Some(i) => 0 <= i < s.len() && s[i] == NL && forall|j: int| 0 <= j < i ==> s[j] != NL,
        },
    decreases s.len(),
{
    if s.len() > 0 && s[0] != NL {
        lemma_first_nl(s.drop_first());
        assert(forall|j: int| 1 <= j < s.len() ==> s[j] == #[trigger] s.drop_first()[j - 1]);
        match first_nl(s.drop_first()) {
            None => {
                assert forall|i: int| 0 <= i < s.len() implies s[i] != NL by {
                    if i > 0 {
                        assert(s[i] == s.drop_first()[i - 1]);
                    }
                }
            },
            Some(i) => {
                assert(s[i + 1] == s.drop_first()[i]);
                assert forall|j: int| 0 <= j < i + 1 implies s[j] != NL by {
                    if j > 0 {
                        assert(s[j] == s.drop_first()[j - 1]);
                    }
                }
            },
        }
    }
}

/// `first_nl` looks only at the bytes up to and including the newline it
/// finds, so it is stable under extension past that point.
pub proof fn lemma_first_nl_prefix(s: Seq<u8>, t: Seq<u8>, i: int)
    requires
        0 <= i < s.len(),
        s[i] == NL,
        forall|j: int| 0 <= j < i ==> s[j] != NL,
        t.len() >= i + 1,
        forall|j: int| 0 <= j <= i ==> t[j] == s[j],
    ensures
        first_nl(t) == Some(i),
    decreases i,
{
    if i == 0 {
    } else {
        lemma_first_nl_prefix(s.drop_first(), t.drop_first(), i - 1);
    }
}

/// The lines of `s`, split at newline bytes; the terminator is consumed.
/// A trailing fragment without a newline forms a final line; an empty `s`
/// has no lines.
pub open spec fn split_nl(s: Seq<u8>) -> Seq<Seq<u8>>
    decreases s.len(),
    via split_nl_decreases
{
    if s.len() == 0 {
        seq![]
    } else {
        match first_nl(s) {
            None => seq![s],
            Some(i) => seq![s.subrange(0, i)] + split_nl(s.subrange(i + 1, s.len() as int)),
        }
    }
}

#[via_fn]
proof fn split_nl_decreases(s: Seq<u8>) {
    if s.len() > 0 {
        lemma_first_nl(s);
    }
}

/// Lines joined back into one byte sequence, a newline after each line.
pub open spec fn joined(lines: Seq<Seq<u8>>) -> Seq<u8>
    decreases lines.len(),
{
    if lines.len() == 0 {
        seq![]
    } else {
        lines[0] + seq![NL] + joined(lines.drop_first())
    }
}

pub proof fn lemma_joined_one(l: Seq<u8>)
    ensures
        joined(seq![l]) == l + seq![NL],
{
    assert(seq![l].drop_first() =~~= Seq::<Seq<u8>>::empty());
    assert(seq![l].len() == 1);
    assert(seq![l][0] == l);
    assert(joined(seq![l].drop_first()) == Seq::<u8>::empty());
    assert(joined(seq![l]) =~= l + seq![NL]);
}

pub proof fn lemma_joined_push(lines: Seq<Seq<u8>>, l: Seq<u8>)
    ensures
        joined(lines.push(l)) == joined(lines) + l + seq![NL],
{
    assert(lines.push(l) =~~= lines + seq![l]);
    lemma_joined_add(lines, seq![l]);
    lemma_joined_one(l);
    assert(joined(lines.push(l)) =~= joined(lines) + l + seq![NL]);
}

pub proof fn lemma_joined_add(a: Seq<Seq<u8>>, b: Seq<Seq<u8>>)
    ensures
        joined(a + b) == joined(a) + joined(b),
    decreases a.len(),
{
    if a.len() == 0 {
        assert(a + b =~= b);
        assert(joined(a + b) =~= joined(a) + joined(b));
    } else {
        assert((a + b).drop_first() =~~= a.drop_first() + b);
        lemma_joined_add(a.drop_first(), b);
        assert(joined(a + b) =~= joined(a) + joined(b));
    }
}

/// Splitting undoes joining, provided no line holds a newline of its own.
pub proof fn lemma_split_joined(lines: Seq<Seq<u8>>)
    requires
        forall|i: int, j: int|
            0 <= i < lines.len() && 0 <= j < lines[i].len() ==> #[trigger] lines[i][j] != NL,
    ensures
        split_nl(joined(lines)) == lines,
    decreases lines.len(),
{
    if lines.len() == 0 {
    } else {
        let l = lines[0];
        let rest = joined(lines.drop_first());
        let s = joined(lines);
        assert(s =~= l + seq![NL] + rest);
        assert(s.len() > 0);
        assert(s[l.len() as int] == NL);
        assert(forall|j: int| 0 <= j < l.len() ==> s[j] == lines[0][j] && s[j] != NL);
        lemma_first_nl(s);
        lemma_first_nl_prefix(s, s, l.len() as int);
        assert(first_nl(s) == Some(l.len() as int));
        assert(s.subrange(0, l.len() as int) =~= l);
        assert(s.subrange(l.len() as int + 1, s.len() as int) =~= rest);
        lemma_split_joined(lines.drop_first());
        assert(split_nl(s) =~~= lines);
    }
}

/// Relies on `String::from_utf8`: it succeeds exactly on UTF-8 input and
/// decodes it, as vstd's `valid_utf8` and `decode_utf8` model.
#[verifier::external_body]
pub fn bytes_to_string(b: &Vec<u8>) -> (r: Option<String>)
    ensures
        (r is Some) == vstd::utf8::valid_utf8(b@),
        r is Some ==> r->Some_0@ == vstd::utf8::decode_utf8(b@),
{
    String::from_utf8(b.clone()).ok()
}

/// Copies the byte range `[a, b)` of `s` into a fresh vector.
pub fn copy_range(s: &Vec<u8>, a: usize, b: usize) -> (r: Vec<u8>)
    requires
        a <= b <= s@.len(),
    ensures
        r@ == s@.subrange(a as int, b as int),
{
    let mut r: Vec<u8> = Vec::new();
    let mut i: usize = a;
    while i < b
        invariant
            a <= i <= b <= s@.len(),
            r@ == s@.subrange(a as int, i as int),
        decreases b - i,
    {
        r.push(s[i]);
        proof {
            assert(r@ =~= s@.subrange(a as int, i + 1));
        }
        i += 1;
    }
    r
}

/// Appends every byte of `s` to `out`.
pub fn append_bytes(out: &mut Vec<u8>, s: &Vec<u8>)
    ensures
        final(out)@ == old(out)@ + s@,
{
    let ghost base = out@;
    let mut i: usize = 0;
    while i < s.len()
        invariant
            i <= s@.len(),
            out@ == base + s@.subrange(0, i as int),
        decreases s.len() - i,
    {
        out.push(s[i]);
        proof {
            assert(base + s@.subrange(0, i + 1) =~= out@);
        }
        i += 1;
    }
    proof {
        assert(s@.subrange(0, s@.len() as int) =~= s@);
    }
}

/// Finds the first newline at or after `from`, matching `first_nl` on the
/// suffix that starts there.
pub fn find_nl(s: &Vec<u8>, from: usize) -> (r: Option<usize>)
    requires
        from <= s@.len(),
    ensures
        match r {
            None => first_nl(s@.subrange(from as int, s@.len() as int)) is None,
            Some(i) => from <= i < s@.len() && first_nl(
                s@.subrange(from as int, s@.len() as int),
            ) == Some(i - from),
        },
{
    let ghost suff = s@.subrange(from as int, s@.len() as int);
    let mut i: usize = from;
    while i < s.len()
        invariant
            from <= i <= s@.len(),
            suff == s@.subrange(from as int, s@.len() as int),
            forall|j: int| 0 <= j < i - from ==> suff[j] != NL,
        decreases s.len() - i,
    {
        if s[i] == NL {
            proof {
                lemma_first_nl_prefix(suff, suff, i - from);
            }
            return Some(i);
        }
        i += 1;
    }
    proof {
        lemma_first_nl(suff);
        if first_nl(suff) is Some {
            let j = first_nl(suff)->Some_0;
            assert(suff[j] != NL);
        }
    }
    None
}

/// Splits a byte vector at newline bytes, matching `split_nl`.
pub fn split_lines(s: &Vec<u8>) -> (r: Vec<Vec<u8>>)
    ensures
        r.deep_view() == split_nl(s@),
        forall|i: int, j: int|
            0 <= i < r.deep_view().len() && 0 <= j < r.deep_view()[i].len()
                ==> #[trigger] r.deep_view()[i][j] != NL,
{
    let ghost whole = s@;
    let mut r: Vec<Vec<u8>> = Vec::new();
    let mut cur: Vec<u8> = Vec::new();
    let mut i: usize = 0;
    proof {
        lemma_split_suffix_zero(whole);
    }
    while i < s.len()
        invariant
            i <= s.len(),
            whole == s@,
            cur@.len() <= i,
            forall|j: int| 0 <= j < cur@.len() ==> #[trigger] cur@[j] != NL,
            forall|a: int, b: int|
                0 <= a < r.deep_view().len() && 0 <= b < r.deep_view()[a].len()
                    ==> #[trigger] r.deep_view()[a][b] != NL,
            cur@ == whole.subrange(i - cur@.len(), i as int),
            split_nl(whole) == r.deep_view() + split_nl(whole.subrange(
                i - cur@.len(),
                whole.len() as int,
            )),
        decreases s.len() - i,
    {
        let ghost start = i - cur@.len();
        let b = s[i];
        if b == NL {
            proof {
                let suff = whole.subrange(start, whole.len() as int);
                lemma_first_nl(suff);
                lemma_first_nl_prefix(suff, suff, cur@.len() as int);
                assert(suff.subrange(0, cur@.len() as int) =~= cur@);
                assert(suff.subrange(cur@.len() as int + 1, suff.len() as int) =~= whole.subrange(
                    i + 1,
                    whole.len() as int,
                ));
                assert(split_nl(suff) =~~= seq![cur@] + split_nl(
                    whole.subrange(i + 1, whole.len() as int),
                ));
                assert(r.deep_view() + split_nl(suff) =~~= r.deep_view().push(cur@) + split_nl(
                    whole.subrange(i + 1, whole.len() as int),
                ));
            }
            let ghost old_r = r.deep_view();
            let ghost old_cur = cur@;
            r.push(cur);
            cur = Vec::new();
            proof {
                assert(r.deep_view() =~~= old_r.push(old_cur));
                assert(cur@ =~= whole.subrange(i + 1 - 0, i + 1));
            }
        } else {
            cur.push(b);
            proof {
                assert(cur@ =~= whole.subrange(start, i + 1));
            }
        }
        i += 1;
    }
    if cur.len() > 0 {
        proof {
            let suff = whole.subrange(i - cur@.len(), whole.len() as int);
            assert(suff =~= cur@);
            lemma_first_nl(suff);
            assert(split_nl(suff) =~~= seq![cur@]);
            assert(r.deep_view() + seq![cur@] =~~= r.deep_view().push(cur@));
        }
        let ghost old_r = r.deep_view();
        let ghost old_cur = cur@;
        r.push(cur);
        proof {
            assert(r.deep_view() =~~= old_r.push(old_cur));
        }
    } else {
        proof {
            assert(whole.subrange(i - 0, whole.len() as int) =~= Seq::<u8>::empty());
            assert(r.deep_view() + split_nl(Seq::<u8>::empty()) =~~= r.deep_view());
        }
    }
    r
}

proof fn lemma_split_suffix_zero(whole: Seq<u8>)
    ensures
        whole.subrange(0, whole.len() as int) =~= whole,
{
}

} // verus!
