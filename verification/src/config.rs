//! The tool's own configuration: the template base path, where the access
//! token lives, and the recorded snippet id per package. The values are
//! plain data; serialisation to and from disk is the caller's concern.
//! Also here: the two small path conveniences the configuration uses, a
//! leading-tilde expansion and its inverse abbreviation.

use vstd::prelude::*;

verus! {

/// The id recorded for a key, if any: the first entry with that key.
pub open spec fn lookup_from(entries: Seq<(String, String)>, key: Seq<char>, i: int) -> Option<
    Seq<char>,
>
    decreases entries.len() - i when 0 <= i <= entries.len()
{
    if i >= entries.len() {
        None
    } else if entries[i].0@ == key {
        Some(entries[i].1@)
    } else {
        lookup_from(entries, key, i + 1)
    }
}

/// The id recorded for a key, if any.
pub open spec fn lookup(entries: Seq<(String, String)>, key: Seq<char>) -> Option<Seq<char>> {
    lookup_from(entries, key, 0)
}

/// Index of the first entry with the key, mirroring `lookup`.
pub open spec fn key_index_from(entries: Seq<(String, String)>, key: Seq<char>, i: int) -> Option<
    int,
>
    decreases entries.len() - i when 0 <= i <= entries.len()
{
    if i >= entries.len() {
        None
    } else if entries[i].0@ == key {
        Some(i)
    } else {
        key_index_from(entries, key, i + 1)
    }
}

proof fn lemma_key_index_from(entries: Seq<(String, String)>, key: Seq<char>, i: int)
    requires
        0 <= i <= entries.len(),
    ensures
        match key_index_from(entries, key, i) {
            Some(w) => i <= w < entries.len() && entries[w].0@ == key && lookup_from(
                entries,
                key,
                i,
            ) == Some(entries[w].1@) && forall|j: int| i <= j < w ==> (#[trigger] entries[j].0)@
                != key,
            None => lookup_from(entries, key, i) is None && forall|j: int|
                i <= j < entries.len() ==> (#[trigger] entries[j].0)@ != key,
        },
    decreases entries.len() - i,
{
    if i < entries.len() && entries[i].0@ != key {
        lemma_key_index_from(entries, key, i + 1);
    }
}

fn find_key(v: &Vec<(String, String)>, key: &str) -> (r: Option<usize>)
    ensures
        match r {
            Some(w) => key_index_from(v@, key@, 0) == Some(w as int) && w < v@.len(),
            None => key_index_from(v@, key@, 0) is None,
        },
{
    let mut i: usize = 0;
    while i < v.len()
        invariant
            i <= v@.len(),
            key_index_from(v@, key@, 0) == key_index_from(v@, key@, i as int),
        decreases v.len() - i,
    {
        if crate::paths::str_eq(v[i].0.as_str(), key) {
            assert(v@[i as int].0@ == key@);
            return Some(i);
        }
        assert(v@[i as int].0@ != key@);
        i += 1;
    }
    None
}

/// The tool's configuration: the template base path, the path the access
/// token is stored under, and one recorded snippet id per package name.
pub struct CargoScriptsConfig {
    /// The template directory, relative to the workspace root.
    pub base: String,
    /// Where the access token is stored, with the home directory
    /// abbreviated to a leading tilde.
    pub github_token_path: String,
    /// The recorded snippet id per package name; keys are unique.
    pub gist_ids: Vec<(String, String)>,
}

impl CargoScriptsConfig {
    /// Keys of `gist_ids` appear once each.
    pub open spec fn wf(&self) -> bool {
        forall|i: int, j: int|
            0 <= i < j < self.gist_ids@.len() ==> (#[trigger] self.gist_ids@[i].0)@ != (
            #[trigger] self.gist_ids@[j].0)@
    }

    /// The id recorded for a package, if any.
    pub fn get_gist_id(&self, package: &str) -> (r: Option<String>)
        ensures
            (r is Some) == (lookup(self.gist_ids@, package@) is Some),
            r is Some ==> r->Some_0@ == lookup(self.gist_ids@, package@)->Some_0,
    {
        let mut i: usize = 0;
        while i < self.gist_ids.len()
            invariant
                i <= self.gist_ids@.len(),
                lookup(self.gist_ids@, package@) == lookup_from(
                    self.gist_ids@,
                    package@,
                    i as int,
                ),
            decreases self.gist_ids.len() - i,
        {
            if crate::paths::str_eq(self.gist_ids[i].0.as_str(), package) {
                return Some(String::from_str(self.gist_ids[i].1.as_str()));
            }
            i += 1;
        }
        None
    }

    /// Records an id for a package, replacing any previous one; every
    /// other package's record is untouched.
    pub fn set_gist_id(&mut self, package: &str, id: &str)
        requires
            old(self).wf(),
        ensures
            final(self).wf(),
            lookup(final(self).gist_ids@, package@) == Some(id@),
            forall|k: Seq<char>|
                k != package@ ==> #[trigger] lookup(final(self).gist_ids@, k) == lookup(
                    old(self).gist_ids@,
                    k,
                ),
            final(self).base == old(self).base,
            final(self).github_token_path == old(self).github_token_path,
    {
        let ghost entries0 = self.gist_ids@;
        let at = find_key(&self.gist_ids, package);
        let pair = (String::from_str(package), String::from_str(id));
        match at {
            Some(w) => {
                proof {
                    lemma_key_index_from(entries0, package@, 0);
                }
                self.gist_ids.remove(w);
                self.gist_ids.insert(w, pair);
                proof {
                    assert(self.gist_ids@ =~= entries0.update(w as int, pair));
                    lemma_set_key(entries0, package@, id@, w as int, pair);
                }
            },
            None => {
                proof {
                    lemma_key_index_from(entries0, package@, 0);
                }
                self.gist_ids.push(pair);
                proof {
                    lemma_push_key(entries0, package@, id@, pair);
                }
            },
        }
    }

    /// Drops the record for a package, if one exists; every other
    /// package's record is untouched.
    pub fn remove_gist_id(&mut self, package: &str)
        requires
            old(self).wf(),
        ensures
            final(self).wf(),
            lookup(final(self).gist_ids@, package@) is None,
            forall|k: Seq<char>|
                k != package@ ==> #[trigger] lookup(final(self).gist_ids@, k) == lookup(
                    old(self).gist_ids@,
                    k,
                ),
            final(self).base == old(self).base,
            final(self).github_token_path == old(self).github_token_path,
    {
        let ghost entries0 = self.gist_ids@;
        let at = find_key(&self.gist_ids, package);
        match at {
            Some(w) => {
                proof {
                    lemma_key_index_from(entries0, package@, 0);
                }
                self.gist_ids.remove(w);
                proof {
                    lemma_remove_key(entries0, package@, w as int);
                }
            },
            None => {
                proof {
                    lemma_key_index_from(entries0, package@, 0);
                    lemma_absent_key(entries0, package@);
                }
            },
        }
    }

    /// Replaces the template base path.
    pub fn set_base(&mut self, base: &str)
        ensures
            final(self).base@ == base@,
            final(self).github_token_path == old(self).github_token_path,
            final(self).gist_ids == old(self).gist_ids,
    {
        self.base = String::from_str(base);
    }
}

proof fn lemma_lookup_from_step(entries: Seq<(String, String)>, key: Seq<char>, i: int, upto: int)
    requires
        0 <= i <= upto <= entries.len(),
        forall|j: int| i <= j < upto ==> (#[trigger] entries[j].0)@ != key,
    ensures
        lookup_from(entries, key, i) == lookup_from(entries, key, upto),
    decreases upto - i,
{
    if i < upto {
        lemma_lookup_from_step(entries, key, i + 1, upto);
    }
}

proof fn lemma_set_key(
    entries: Seq<(String, String)>,
    key: Seq<char>,
    id: Seq<char>,
    w: int,
    pair: (String, String),
)
    requires
        0 <= w < entries.len(),
        pair.0@ == key,
        pair.1@ == id,
        entries[w].0@ == key,
        forall|j: int| 0 <= j < w ==> (#[trigger] entries[j].0)@ != key,
        forall|i: int, j: int|
            0 <= i < j < entries.len() ==> (#[trigger] entries[i].0)@ != (
            #[trigger] entries[j].0)@,
    ensures
        lookup(entries.update(w, pair), key) == Some(id),
        forall|k: Seq<char>|
            k != key ==> #[trigger] lookup(entries.update(w, pair), k) == lookup(entries, k),
        forall|i: int, j: int|
            0 <= i < j < entries.update(w, pair).len() ==> (#[trigger] entries.update(
                w,
                pair,
            )[i].0)@ != (#[trigger] entries.update(w, pair)[j].0)@,
{
    let upd = entries.update(w, pair);
    assert(forall|j: int| 0 <= j < upd.len() && j != w ==> upd[j] == entries[j]);
    assert(upd[w] == pair);
    lemma_lookup_from_step(upd, key, 0, w);
    assert(lookup_from(upd, key, w) == Some(id));
    assert forall|k: Seq<char>| k != key implies #[trigger] lookup(upd, k) == lookup(
        entries,
        k,
    ) by {
        lemma_lookup_update_other(entries, upd, k, key, w, 0);
    }
}

proof fn lemma_lookup_update_other(
    a: Seq<(String, String)>,
    b: Seq<(String, String)>,
    k: Seq<char>,
    key: Seq<char>,
    w: int,
    i: int,
)
    requires
        0 <= i <= a.len(),
        a.len() == b.len(),
        0 <= w < a.len(),
        k != key,
        a[w].0@ == key,
        b[w].0@ == key,
        forall|j: int| 0 <= j < a.len() && j != w ==> a[j] == b[j],
    ensures
        lookup_from(a, k, i) == lookup_from(b, k, i),
    decreases a.len() - i,
{
    if i < a.len() {
        lemma_lookup_update_other(a, b, k, key, w, i + 1);
    }
}

proof fn lemma_push_key(
    entries: Seq<(String, String)>,
    key: Seq<char>,
    id: Seq<char>,
    pair: (String, String),
)
    requires
        pair.0@ == key,
        pair.1@ == id,
        forall|j: int| 0 <= j < entries.len() ==> (#[trigger] entries[j].0)@ != key,
        forall|i: int, j: int|
            0 <= i < j < entries.len() ==> (#[trigger] entries[i].0)@ != (
            #[trigger] entries[j].0)@,
    ensures
        lookup(entries.push(pair), key) == Some(id),
        forall|k: Seq<char>|
            k != key ==> #[trigger] lookup(entries.push(pair), k) == lookup(entries, k),
        forall|i: int, j: int|
            0 <= i < j < entries.push(pair).len() ==> (#[trigger] entries.push(pair)[i].0)@ != (
            #[trigger] entries.push(pair)[j].0)@,
{
    let p = entries.push(pair);
    assert(forall|j: int| 0 <= j < entries.len() ==> p[j] == entries[j]);
    assert(p[p.len() - 1] == pair);
    lemma_lookup_from_step(p, key, 0, entries.len() as int);
    assert(lookup_from(p, key, entries.len() as int) == Some(id));
    assert forall|k: Seq<char>| k != key implies #[trigger] lookup(p, k) == lookup(entries, k) by {
        lemma_lookup_push_other(entries, p, k, 0);
    }
}

proof fn lemma_lookup_push_other(
    a: Seq<(String, String)>,
    b: Seq<(String, String)>,
    k: Seq<char>,
    i: int,
)
    requires
        0 <= i <= a.len(),
        b.len() == a.len() + 1,
        b[a.len() as int].0@ != k,
        forall|j: int| 0 <= j < a.len() ==> a[j] == b[j],
    ensures
        lookup_from(a, k, i) == lookup_from(b, k, i),
    decreases a.len() - i,
{
    if i < a.len() {
        lemma_lookup_push_other(a, b, k, i + 1);
    } else {
        assert(lookup_from(b, k, i) == lookup_from(b, k, i + 1));
    }
}

proof fn lemma_remove_key(entries: Seq<(String, String)>, key: Seq<char>, w: int)
    requires
        0 <= w < entries.len(),
        entries[w].0@ == key,
        forall|j: int| 0 <= j < w ==> (#[trigger] entries[j].0)@ != key,
        forall|i: int, j: int|
            0 <= i < j < entries.len() ==> (#[trigger] entries[i].0)@ != (
            #[trigger] entries[j].0)@,
    ensures
        lookup(entries.remove(w), key) is None,
        forall|k: Seq<char>|
            k != key ==> #[trigger] lookup(entries.remove(w), k) == lookup(entries, k),
        forall|i: int, j: int|
            0 <= i < j < entries.remove(w).len() ==> (#[trigger] entries.remove(w)[i].0)@ != (
            #[trigger] entries.remove(w)[j].0)@,
{
    let rem = entries.remove(w);
    assert(forall|j: int| 0 <= j < w ==> rem[j] == entries[j]);
    assert(forall|j: int| w <= j < rem.len() ==> rem[j] == entries[j + 1]);
    assert forall|j: int| 0 <= j < rem.len() implies (#[trigger] rem[j].0)@ != key by {
        if j < w {
        } else {
            assert(rem[j] == entries[j + 1]);
        }
    }
    lemma_absent_key(rem, key);
    assert forall|k: Seq<char>| k != key implies #[trigger] lookup(rem, k) == lookup(
        entries,
        k,
    ) by {
        lemma_lookup_remove_other(entries, k, key, w, 0);
    }
}

proof fn lemma_lookup_remove_other(
    entries: Seq<(String, String)>,
    k: Seq<char>,
    key: Seq<char>,
    w: int,
    i: int,
)
    requires
        0 <= i <= entries.len(),
        0 <= w < entries.len(),
        k != key,
        entries[w].0@ == key,
    ensures
        i <= w ==> lookup_from(entries.remove(w), k, i) == lookup_from(entries, k, i),
        i > w ==> i <= entries.len() && lookup_from(entries.remove(w), k, i - 1) == lookup_from(
            entries,
            k,
            i,
        ),
    decreases entries.len() - i,
{
    let rem = entries.remove(w);
    assert(forall|j: int| 0 <= j < w ==> rem[j] == entries[j]);
    assert(forall|j: int| w <= j < rem.len() ==> rem[j] == entries[j + 1]);
    if i < entries.len() {
        lemma_lookup_remove_other(entries, k, key, w, i + 1);
    }
}

proof fn lemma_absent_key(entries: Seq<(String, String)>, key: Seq<char>)
    requires
        forall|j: int| 0 <= j < entries.len() ==> (#[trigger] entries[j].0)@ != key,
    ensures
        lookup(entries, key) is None,
{
    lemma_key_index_from(entries, key, 0);
    if key_index_from(entries, key, 0) is Some {
        let w = key_index_from(entries, key, 0)->Some_0;
        assert(entries[w].0@ != key);
    }
}

/// A leading tilde expanded against a home directory: `~` alone becomes
/// the home, `~/rest` becomes the home with `/rest` appended, and
/// anything else — a missing home included — is unchanged.
pub open spec fn expand_tilde_spec(p: Seq<char>, home: Option<Seq<char>>) -> Seq<char> {
    match home {
        Some(h) => if p.len() > 0 && p[0] == '~' && (p.len() == 1 || p[1] == '/') {
            h + p.skip(1)
        } else {
            p
        },
        None => p,
    }
}

/// Expands a leading tilde against the home directory.
pub fn expand_tilde(p: &str, home: Option<&String>) -> (r: String)
    ensures
        r@ == expand_tilde_spec(
            p@,
            match home {
                Some(h) => Some(h@),
                None => None,
            },
        ),
{
    let n = p.unicode_len();
    match home {
        Some(h) => {
            if n > 0 && p.get_char(0) == '~' && (n == 1 || p.get_char(1) == '/') {
                let mut out = String::from_str(h.as_str());
                let rest = p.substring_char(1, n);
                out.append(rest);
                proof {
                    assert(rest@ =~= p@.skip(1));
                }
                out
            } else {
                String::from_str(p)
            }
        },
        None => String::from_str(p),
    }
}

/// A path with the home directory abbreviated to a leading tilde, when
/// the home is not empty and prefixes the path character for character.
pub open spec fn abbreviate_home_spec(p: Seq<char>, home: Seq<char>) -> Seq<char> {
    if home.len() > 0 && home.is_prefix_of(p) {
        seq!['~'] + p.skip(home.len() as int)
    } else {
        p
    }
}

/// Abbreviates the home-directory prefix of a path to a tilde.
pub fn abbreviate_home(p: &str, home: &str) -> (r: String)
    ensures
        r@ == abbreviate_home_spec(p@, home@),
{
    let np = p.unicode_len();
    let nh = home.unicode_len();
    if nh == 0 || nh > np {
        proof {
            if nh > np {
                assert(!home@.is_prefix_of(p@));
            }
        }
        return String::from_str(p);
    }
    let mut i: usize = 0;
    while i < nh
        invariant
            i <= nh <= np,
            np == p@.len(),
            nh == home@.len(),
            forall|j: int| 0 <= j < i ==> p@[j] == home@[j],
        decreases nh - i,
    {
        if p.get_char(i) != home.get_char(i) {
            proof {
                if home@.is_prefix_of(p@) {
                    assert(home@ == p@.subrange(0, nh as int));
                    assert(home@[i as int] == p@[i as int]);
                }
            }
            return String::from_str(p);
        }
        i += 1;
    }
    proof {
        assert(home@.is_prefix_of(p@)) by {
            assert(home@ =~= p@.subrange(0, nh as int));
        }
    }
    let mut out = String::from_str("~");
    let rest = p.substring_char(nh, np);
    out.append(rest);
    proof {
        reveal_strlit("~");
        assert("~"@ =~= seq!['~']);
        assert(rest@ =~= p@.skip(nh as int));
        assert(out@ =~= abbreviate_home_spec(p@, home@));
    }
    out
}

} // verus!
