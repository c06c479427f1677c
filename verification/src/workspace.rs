//! Format-preserving edits to the workspace configuration document.
//!
//! The document itself is held by `toml_edit`, which keeps comments,
//! ordering and spacing intact across a parse/serialise round trip. What
//! this module verifies is every decision made over the document: which
//! entry of a list names the same member as a candidate path, whether an
//! addition is a duplicate, and which single entry a removal takes out.
//! The document's contents are modelled by named spec functions over the
//! opaque document value.

use vstd::prelude::*;

use crate::paths::{rel_spec, relative_to_root, same_path, same_under};

verus! {

/// Why a workspace or manifest edit failed.
#[derive(Debug, Clone, Copy, PartialEq, Eq, Structural)]
pub enum WsError {
    /// The document is not valid TOML.
    Parse,
    /// The named list exists but is not an array.
    NotAnArray,
    /// `package.name` is missing or not a string.
    NotAString,
}

#[verifier::external_type_specification]
#[verifier::external_body]
pub struct ExDocumentMut(toml_edit::DocumentMut);

/// The entries of the `workspace.<key>` array of the document: one entry
/// per array element, a string entry carrying its characters. `None` when
/// the key is missing, not an array, or not under a table. Named rather
/// than written out: it is a function of the document value alone.
pub uninterp spec fn ws_list(d: toml_edit::DocumentMut, key: Seq<char>) -> Option<
    Seq<Option<Seq<char>>>,
>;

/// The text the document serialises to. Named: a function of the
/// document value alone.
pub uninterp spec fn doc_text_of(d: toml_edit::DocumentMut) -> Seq<char>;

/// Whether a text parses as a TOML document. Named: a function of the
/// text alone.
pub uninterp spec fn toml_accepts(s: Seq<char>) -> bool;

/// The string value of `package.<key>` in the document, if that item is a
/// string. Named: a function of the document value alone.
pub uninterp spec fn pkg_field(d: toml_edit::DocumentMut, key: Seq<char>) -> Option<Seq<char>>;

/// The document a TOML text parses to. Named: parsing is a function of
/// the text alone; meaningful when `toml_accepts` holds of the text.
pub uninterp spec fn toml_doc_of(s: Seq<char>) -> toml_edit::DocumentMut;

/// The boolean value of `package.<key>` in the document, if that item is
/// a boolean. Named: a function of the document value alone.
pub uninterp spec fn pkg_bool_field(d: toml_edit::DocumentMut, key: Seq<char>) -> Option<bool>;

/// Relies on `DocumentMut::from_str`: it accepts exactly the TOML texts.
/// Nothing is claimed about the parsed document's serialised form: the
/// writer preserves the formatting it keeps, but it does not reproduce
/// every accepted input byte for byte (a missing final newline, for one).
#[verifier::external_body]
pub fn parse_toml(text: &str) -> (r: Option<toml_edit::DocumentMut>)
    ensures
        (r is Some) == toml_accepts(text@),
        r is Some ==> r->Some_0 == toml_doc_of(text@),
{
    text.parse::<toml_edit::DocumentMut>().ok()
}

/// Relies on `DocumentMut`'s `Display`: the document's serialised text.
#[verifier::external_body]
pub fn doc_to_string(d: &toml_edit::DocumentMut) -> (r: String)
    ensures
        r@ == doc_text_of(*d),
{
    format!("{}", d)
}

/// Relies on `Item::or_insert` and `Item::as_array_mut`: makes sure
/// `workspace.<key>` is an array, creating an empty one when the slot is
/// free. An existing array is left exactly as it is; a non-array there,
/// or a non-table `workspace`, is refused without touching the document.
#[verifier::external_body]
fn ensure_ws_array(d: &mut toml_edit::DocumentMut, key: &str) -> (r: Result<usize, ()>)
    ensures
        match ws_list(*old(d), key@) {
            Some(s) => r is Ok && r->Ok_0 == s.len() && *final(d) == *old(d),
            None => (r is Err ==> *final(d) == *old(d)) && (r is Ok ==> ws_list(*final(d), key@)
                == Some(Seq::<Option<Seq<char>>>::empty()) && r->Ok_0 == 0usize),
        },
        forall|k2: Seq<char>| k2 != key@ ==> ws_list(*final(d), k2) == ws_list(*old(d), k2),
        forall|k2: Seq<char>| pkg_field(*final(d), k2) == pkg_field(*old(d), k2),
        forall|k2: Seq<char>| pkg_bool_field(*final(d), k2) == pkg_bool_field(*old(d), k2),
{
    let bad = d.get("workspace").map_or(false, |i| !i.is_none() && i.as_table_like().is_none());
    if bad {
        return Err(());
    }
    let item = d["workspace"][key].or_insert(toml_edit::value(toml_edit::Array::new()));
    match item.as_array_mut() {
        Some(a) => Ok(a.len()),
        None => Err(()),
    }
}

/// Relies on `Array::len`: the length of the `workspace.<key>` array.
#[verifier::external_body]
fn ws_array_len(d: &toml_edit::DocumentMut, key: &str) -> (r: usize)
    requires
        ws_list(*d, key@) is Some,
    ensures
        r == ws_list(*d, key@)->Some_0.len(),
{
    d.get("workspace")
        .and_then(|w| w.get(key))
        .and_then(|it| it.as_array())
        .map_or(0, |a| a.len())
}

/// Relies on `Item::get`, `Item::as_array`, `Array::get` and
/// `Value::as_str`: the `i`th entry of the `workspace.<key>` array, with
/// `Some(None)` for an entry that is not a string.
#[verifier::external_body]
fn ws_array_get(d: &toml_edit::DocumentMut, key: &str, i: usize) -> (r: Option<Option<String>>)
    ensures
        match ws_list(*d, key@) {
            Some(s) => {
                &&& i < s.len() ==> {
                    &&& r is Some
                    &&& ((r->Some_0 is Some) == (s[i as int] is Some))
                    &&& (r->Some_0 is Some ==> r->Some_0->Some_0@ == s[i as int]->Some_0)
                }
                &&& i >= s.len() ==> r is None
            },
            None => r is None,
        },
{
    let v = d
        .get("workspace")
        .and_then(|w| w.get(key))
        .and_then(|it| it.as_array())
        .and_then(|a| a.get(i));
    v.map(|val| val.as_str().map(|s| s.to_owned()))
}

/// Relies on `Array::push`: appends a string value to the
/// `workspace.<key>` array, leaving everything else alone.
#[verifier::external_body]
fn ws_array_push(d: &mut toml_edit::DocumentMut, key: &str, val: &str)
    requires
        ws_list(*old(d), key@) is Some,
    ensures
        ws_list(*final(d), key@) == Some(ws_list(*old(d), key@)->Some_0.push(Some(val@))),
        forall|k2: Seq<char>| k2 != key@ ==> ws_list(*final(d), k2) == ws_list(*old(d), k2),
        forall|k2: Seq<char>| pkg_field(*final(d), k2) == pkg_field(*old(d), k2),
        forall|k2: Seq<char>| pkg_bool_field(*final(d), k2) == pkg_bool_field(*old(d), k2),
{
    if let Some(a) = d["workspace"][key].as_array_mut() {
        a.push(val);
    }
}

/// Relies on `Array::remove`: removes the `i`th entry of the
/// `workspace.<key>` array, leaving the other entries' values alone.
/// One unmodelled formatting touch besides the call: when the first entry
/// goes, the spacing in front of the new first entry is cleared, so the
/// array reads as if it had been written without the removed head. The
/// model speaks only of entry values, which that does not change.
#[verifier::external_body]
fn ws_array_remove(d: &mut toml_edit::DocumentMut, key: &str, i: usize)
    requires
        ws_list(*old(d), key@) is Some,
        i < ws_list(*old(d), key@)->Some_0.len(),
    ensures
        ws_list(*final(d), key@) == Some(ws_list(*old(d), key@)->Some_0.remove(i as int)),
        forall|k2: Seq<char>| k2 != key@ ==> ws_list(*final(d), k2) == ws_list(*old(d), k2),
        forall|k2: Seq<char>| pkg_field(*final(d), k2) == pkg_field(*old(d), k2),
        forall|k2: Seq<char>| pkg_bool_field(*final(d), k2) == pkg_bool_field(*old(d), k2),
{
    if let Some(a) = d["workspace"][key].as_array_mut() {
        if i < a.len() {
            a.remove(i);
            if i == 0 {
                if let Some(v) = a.iter_mut().next() {
                    v.decor_mut().set_prefix("");
                }
            }
        }
    }
}

/// Relies on `Item::get` and `Item::as_str`: the string at
/// `package.<key>`, if it is one.
#[verifier::external_body]
pub fn get_pkg_str(d: &toml_edit::DocumentMut, key: &str) -> (r: Option<String>)
    ensures
        (r is Some) == (pkg_field(*d, key@) is Some),
        r is Some ==> r->Some_0@ == pkg_field(*d, key@)->Some_0,
{
    d.get("package").and_then(|p| p.get(key)).and_then(|it| it.as_str()).map(|s| s.to_owned())
}

/// Relies on index assignment and `toml_edit::value`: sets
/// `package.<key>` to a string value, leaving the workspace lists and the
/// other package fields alone.
#[verifier::external_body]
fn set_pkg_str(d: &mut toml_edit::DocumentMut, key: &str, val: &str)
    requires
        pkg_field(*old(d), "name"@) is Some,
    ensures
        pkg_field(*final(d), key@) == Some(val@),
        pkg_bool_field(*final(d), key@) is None,
        forall|k2: Seq<char>| k2 != key@ ==> pkg_field(*final(d), k2) == pkg_field(*old(d), k2),
        forall|k2: Seq<char>|
            k2 != key@ ==> pkg_bool_field(*final(d), k2) == pkg_bool_field(*old(d), k2),
        forall|k2: Seq<char>| ws_list(*final(d), k2) == ws_list(*old(d), k2),
{
    let item = &mut d["package"][key];
    if let Some(v) = item.as_value_mut() {
        let decor = v.decor().clone();
        *v = val.into();
        *v.decor_mut() = decor;
    } else {
        *item = toml_edit::value(val);
    }
}

/// Relies on index assignment and `toml_edit::value`: sets
/// `package.<key>` to the given boolean (so it is no longer a string),
/// leaving the workspace lists and the other package fields alone.
#[verifier::external_body]
fn set_pkg_bool(d: &mut toml_edit::DocumentMut, key: &str, val: bool)
    requires
        pkg_field(*old(d), "name"@) is Some,
    ensures
        pkg_bool_field(*final(d), key@) == Some(val),
        pkg_field(*final(d), key@) is None,
        forall|k2: Seq<char>| k2 != key@ ==> pkg_field(*final(d), k2) == pkg_field(*old(d), k2),
        forall|k2: Seq<char>|
            k2 != key@ ==> pkg_bool_field(*final(d), k2) == pkg_bool_field(*old(d), k2),
        forall|k2: Seq<char>| ws_list(*final(d), k2) == ws_list(*old(d), k2),
{
    d["package"][key] = toml_edit::value(val);
}

/// Whether a list entry names the same member as the candidate, under the
/// workspace root. A non-string entry never matches.
pub open spec fn entry_same(e: Option<Seq<char>>, root: Seq<char>, cand: Seq<char>) -> bool {
    match e {
        Some(s) => same_under(root, s, cand),
        None => false,
    }
}

/// Index of the first matching entry at or after `i`.
pub open spec fn first_same_from(
    entries: Seq<Option<Seq<char>>>,
    root: Seq<char>,
    cand: Seq<char>,
    i: int,
) -> Option<int>
    decreases entries.len() - i when 0 <= i <= entries.len()
{
    if i >= entries.len() {
        None
    } else if entry_same(entries[i], root, cand) {
        Some(i)
    } else {
        first_same_from(entries, root, cand, i + 1)
    }
}

/// Index of the first entry naming the same member, if any.
pub open spec fn first_same(
    entries: Seq<Option<Seq<char>>>,
    root: Seq<char>,
    cand: Seq<char>,
) -> Option<int> {
    first_same_from(entries, root, cand, 0)
}

pub proof fn lemma_first_same_from(
    entries: Seq<Option<Seq<char>>>,
    root: Seq<char>,
    cand: Seq<char>,
    i: int,
)
    requires
        0 <= i <= entries.len(),
    ensures
        match first_same_from(entries, root, cand, i) {
            Some(r) => i <= r < entries.len() && entry_same(entries[r], root, cand) && forall|
                j: int,
            | i <= j < r ==> !entry_same(entries[j], root, cand),
            None => forall|j: int| i <= j < entries.len() ==> !entry_same(entries[j], root, cand),
        },
    decreases entries.len() - i,
{
    if i < entries.len() && !entry_same(entries[i], root, cand) {
        lemma_first_same_from(entries, root, cand, i + 1);
    }
}

/// Adding a member: append its root-relative form unless an entry already
/// names the same place; then the list is unchanged.
pub open spec fn list_add_spec(
    entries: Seq<Option<Seq<char>>>,
    root: Seq<char>,
    cand: Seq<char>,
) -> Seq<Option<Seq<char>>> {
    if first_same(entries, root, cand) is Some {
        entries
    } else {
        entries.push(Some(cand))
    }
}

/// Removing a member: drop the first entry naming the same place, if any;
/// otherwise the list is unchanged.
pub open spec fn list_rm_spec(
    entries: Seq<Option<Seq<char>>>,
    root: Seq<char>,
    cand: Seq<char>,
) -> Seq<Option<Seq<char>>> {
    match first_same(entries, root, cand) {
        Some(i) => entries.remove(i),
        None => entries,
    }
}

/// One list edit: the optional addition applied first, then the optional
/// removal, each candidate first made relative to the root.
pub open spec fn list_edit_spec(
    entries: Seq<Option<Seq<char>>>,
    root: Seq<char>,
    add: Option<Seq<char>>,
    rm: Option<Seq<char>>,
) -> Seq<Option<Seq<char>>> {
    let e1 = match add {
        Some(a) => list_add_spec(entries, root, rel_spec(a, root)),
        None => entries,
    };
    match rm {
        Some(m) => list_rm_spec(e1, root, rel_spec(m, root)),
        None => e1,
    }
}

/// Adding an entry that is already present (after root-normalisation)
/// leaves the list exactly as it was.
pub proof fn lemma_add_present_is_noop(
    entries: Seq<Option<Seq<char>>>,
    root: Seq<char>,
    cand: Seq<char>,
)
    requires
        exists|i: int| 0 <= i < entries.len() && entry_same(#[trigger] entries[i], root, cand),
    ensures
        list_add_spec(entries, root, cand) == entries,
{
    let w = choose|i: int| 0 <= i < entries.len() && entry_same(#[trigger] entries[i], root, cand);
    lemma_first_same_from(entries, root, cand, 0);
    if first_same(entries, root, cand) is None {
        assert(!entry_same(entries[w], root, cand));
    }
}

/// Removing an entry that is absent (after root-normalisation) leaves the
/// list exactly as it was.
pub proof fn lemma_remove_absent_is_noop(
    entries: Seq<Option<Seq<char>>>,
    root: Seq<char>,
    cand: Seq<char>,
)
    requires
        forall|i: int| 0 <= i < entries.len() ==> !entry_same(#[trigger] entries[i], root, cand),
    ensures
        list_rm_spec(entries, root, cand) == entries,
{
    lemma_first_same_from(entries, root, cand, 0);
    if first_same(entries, root, cand) is Some {
        let w = first_same(entries, root, cand)->Some_0;
        assert(!entry_same(entries[w], root, cand));
    }
}

/// Finds the first entry of `workspace.<key>` naming the same member as
/// `cand`, walking the real array through its model.
fn find_same_entry(d: &toml_edit::DocumentMut, key: &str, root: &str, cand: &str, len: usize) -> (r:
    Option<usize>)
    requires
        ws_list(*d, key@) is Some,
        len == ws_list(*d, key@)->Some_0.len(),
    ensures
        match r {
            Some(i) => first_same(ws_list(*d, key@)->Some_0, root@, cand@) == Some(i as int) && i
                < len,
            None => first_same(ws_list(*d, key@)->Some_0, root@, cand@) is None,
        },
{
    let ghost entries = ws_list(*d, key@)->Some_0;
    let mut i: usize = 0;
    while i < len
        invariant
            i <= len,
            ws_list(*d, key@) == Some(entries),
            len == entries.len(),
            forall|j: int| 0 <= j < i ==> !entry_same(entries[j], root@, cand@),
            first_same(entries, root@, cand@) == first_same_from(entries, root@, cand@, i as int),
        decreases len - i,
    {
        match ws_array_get(d, key, i) {
            Some(Some(s)) => {
                if same_path(root, s.as_str(), cand) {
                    assert(entry_same(entries[i as int], root@, cand@));
                    return Some(i);
                }
            },
            Some(None) => {},
            None => {
                assert(false);
            },
        }
        assert(!entry_same(entries[i as int], root@, cand@));
        i += 1;
    }
    None
}

/// Whether one list edit changes nothing: any addition is already
/// present, and any removal is absent from the list the addition leaves.
pub open spec fn edit_leaves_list(
    entries: Seq<Option<Seq<char>>>,
    root: Seq<char>,
    add: Option<Seq<char>>,
    rm: Option<Seq<char>>,
) -> bool {
    &&& match add {
        Some(a) => first_same(entries, root, rel_spec(a, root)) is Some,
        None => true,
    }
    &&& match rm {
        Some(m) => first_same(
            list_edit_spec(entries, root, add, None),
            root,
            rel_spec(m, root),
        ) is None,
        None => true,
    }
}

/// Applies one addition and one removal to the `workspace.<key>` array.
/// The list afterwards is exactly `list_edit_spec` of the list before
/// (taken as empty when the key was missing); every other list and every
/// package field is untouched. `NotAnArray` only when the slot holds
/// something other than an array, in which case nothing changes.
pub fn edit_ws_list(
    d: &mut toml_edit::DocumentMut,
    key: &str,
    add: Option<&str>,
    rm: Option<&str>,
    root: &str,
) -> (r: Result<(), WsError>)
    ensures
        ws_list(*old(d), key@) is Some ==> r is Ok,
        r is Err ==> r->Err_0 == WsError::NotAnArray && ws_list(*old(d), key@) is None && *final(d)
            == *old(d),
        r is Ok ==> ws_list(*final(d), key@) == Some(
            list_edit_spec(
                match ws_list(*old(d), key@) {
                    Some(s) => s,
                    None => Seq::<Option<Seq<char>>>::empty(),
                },
                root@,
                match add {
                    Some(a) => Some(a@),
                    None => None,
                },
                match rm {
                    Some(m) => Some(m@),
                    None => None,
                },
            ),
        ),
        forall|k2: Seq<char>| k2 != key@ ==> ws_list(*final(d), k2) == ws_list(*old(d), k2),
        forall|k2: Seq<char>| pkg_field(*final(d), k2) == pkg_field(*old(d), k2),
        forall|k2: Seq<char>| pkg_bool_field(*final(d), k2) == pkg_bool_field(*old(d), k2),
        ws_list(*old(d), key@) is Some && edit_leaves_list(
            ws_list(*old(d), key@)->Some_0,
            root@,
            match add {
                Some(a) => Some(a@),
                None => None,
            },
            match rm {
                Some(m) => Some(m@),
                None => None,
            },
        ) ==> *final(d) == *old(d),
{
    let len0 = match ensure_ws_array(d, key) {
        Ok(n) => n,
        Err(_) => {
            return Err(WsError::NotAnArray);
        },
    };
    let ghost base = ws_list(*d, key@)->Some_0;
    let mut len = len0;
    if let Some(a) = add {
        let cand = relative_to_root(a, root);
        match find_same_entry(d, key, root, cand.as_str(), len) {
            Some(_) => {},
            None => {
                ws_array_push(d, key, cand.as_str());
                len = ws_array_len(d, key);
            },
        }
        proof {
            assert(ws_list(*d, key@) == Some(list_add_spec(base, root@, rel_spec(a@, root@))));
        }
    }
    let ghost mid = ws_list(*d, key@)->Some_0;
    if let Some(m) = rm {
        let cand = relative_to_root(m, root);
        match find_same_entry(d, key, root, cand.as_str(), len) {
            Some(i) => {
                ws_array_remove(d, key, i);
                proof {
                    assert(ws_list(*d, key@) == Some(
                        list_rm_spec(mid, root@, rel_spec(m@, root@)),
                    ));
                }
            },
            None => {
                proof {
                    assert(ws_list(*d, key@) == Some(
                        list_rm_spec(mid, root@, rel_spec(m@, root@)),
                    ));
                }
            },
        }
    }
    Ok(())
}

/// All four possible list edits of one workspace operation: an addition
/// and a removal for `members`, and the same for `exclude`. Afterwards
/// each list is exactly `list_edit_spec` of what it was, and every
/// package field is untouched.
pub fn edit_workspace_doc(
    d: &mut toml_edit::DocumentMut,
    add_members: Option<&str>,
    rm_members: Option<&str>,
    add_exclude: Option<&str>,
    rm_exclude: Option<&str>,
    root: &str,
) -> (r: Result<(), WsError>)
    ensures
        r is Err ==> r->Err_0 == WsError::NotAnArray,
        ws_list(*old(d), "members"@) is Some && ws_list(*old(d), "exclude"@) is Some ==> r is Ok,
        r is Ok ==> ws_list(*final(d), "members"@) == Some(
            list_edit_spec(
                match ws_list(*old(d), "members"@) {
                    Some(s) => s,
                    None => Seq::<Option<Seq<char>>>::empty(),
                },
                root@,
                match add_members {
                    Some(a) => Some(a@),
                    None => None,
                },
                match rm_members {
                    Some(m) => Some(m@),
                    None => None,
                },
            ),
        ),
        r is Ok ==> ws_list(*final(d), "exclude"@) == Some(
            list_edit_spec(
                match ws_list(*old(d), "exclude"@) {
                    Some(s) => s,
                    None => Seq::<Option<Seq<char>>>::empty(),
                },
                root@,
                match add_exclude {
                    Some(a) => Some(a@),
                    None => None,
                },
                match rm_exclude {
                    Some(m) => Some(m@),
                    None => None,
                },
            ),
        ),
        forall|k2: Seq<char>|
            k2 != "members"@ && k2 != "exclude"@ ==> ws_list(*final(d), k2) == ws_list(
                *old(d),
                k2,
            ),
        forall|k2: Seq<char>| pkg_field(*final(d), k2) == pkg_field(*old(d), k2),
        forall|k2: Seq<char>| pkg_bool_field(*final(d), k2) == pkg_bool_field(*old(d), k2),
        ws_list(*old(d), "members"@) is Some && ws_list(*old(d), "exclude"@) is Some
            && edit_leaves_list(
            ws_list(*old(d), "members"@)->Some_0,
            root@,
            match add_members {
                Some(a) => Some(a@),
                None => None,
            },
            match rm_members {
                Some(m) => Some(m@),
                None => None,
            },
        ) && edit_leaves_list(
            ws_list(*old(d), "exclude"@)->Some_0,
            root@,
            match add_exclude {
                Some(a) => Some(a@),
                None => None,
            },
            match rm_exclude {
                Some(m) => Some(m@),
                None => None,
            },
        ) ==> *final(d) == *old(d),
{
    proof {
        reveal_strlit("members");
        reveal_strlit("exclude");
        assert("members"@.len() == 7);
        assert("members"@[0] == 'm');
        assert("exclude"@[0] == 'e');
        assert("members"@ != "exclude"@);
    }
    match edit_ws_list(d, "members", add_members, rm_members, root) {
        Ok(_) => {},
        Err(e) => {
            return Err(e);
        },
    }
    match edit_ws_list(d, "exclude", add_exclude, rm_exclude, root) {
        Ok(_) => {},
        Err(e) => {
            return Err(e);
        },
    }
    Ok(())
}

/// The list a possibly-missing workspace key stands for: its entries, or
/// none at all.
pub open spec fn list_or_empty(o: Option<Seq<Option<Seq<char>>>>) -> Seq<Option<Seq<char>>> {
    match o {
        Some(s) => s,
        None => Seq::<Option<Seq<char>>>::empty(),
    }
}

/// What the edited workspace document must look like relative to the one
/// the input text parses to: both lists exactly edited, every other
/// modelled part carried over, and the very same document when the edits
/// change nothing.
pub open spec fn edited_ws_doc(
    d: toml_edit::DocumentMut,
    base: toml_edit::DocumentMut,
    add_members: Option<Seq<char>>,
    rm_members: Option<Seq<char>>,
    add_exclude: Option<Seq<char>>,
    rm_exclude: Option<Seq<char>>,
    root: Seq<char>,
) -> bool {
    &&& ws_list(d, "members"@) == Some(
        list_edit_spec(list_or_empty(ws_list(base, "members"@)), root, add_members, rm_members),
    )
    &&& ws_list(d, "exclude"@) == Some(
        list_edit_spec(list_or_empty(ws_list(base, "exclude"@)), root, add_exclude, rm_exclude),
    )
    &&& forall|k2: Seq<char>|
        k2 != "members"@ && k2 != "exclude"@ ==> ws_list(d, k2) == ws_list(base, k2)
    &&& forall|k2: Seq<char>| pkg_field(d, k2) == pkg_field(base, k2)
    &&& forall|k2: Seq<char>| pkg_bool_field(d, k2) == pkg_bool_field(base, k2)
    &&& (ws_list(base, "members"@) is Some && ws_list(base, "exclude"@) is Some
        && edit_leaves_list(ws_list(base, "members"@)->Some_0, root, add_members, rm_members)
        && edit_leaves_list(ws_list(base, "exclude"@)->Some_0, root, add_exclude, rm_exclude)
        ==> d == base)
}

/// The same operation on the configuration text: parse, edit, serialise.
/// `Parse` exactly when the text is not TOML. On success the output is
/// the serialised form of a document related to the parsed text by
/// `edited_ws_doc`: both lists exactly edited, everything else modelled
/// carried over, and the identical document when nothing changed; the
/// format-preserving writer carries the unmodelled trivia along.
pub fn modify_workspace_manifest(
    text: &str,
    add_members: Option<&str>,
    rm_members: Option<&str>,
    add_exclude: Option<&str>,
    rm_exclude: Option<&str>,
    root: &str,
) -> (r: Result<String, WsError>)
    ensures
        (r == Err::<String, WsError>(WsError::Parse)) == !toml_accepts(text@),
        r is Err ==> r->Err_0 == WsError::Parse || r->Err_0 == WsError::NotAnArray,
        toml_accepts(text@) && ws_list(toml_doc_of(text@), "members"@) is Some && ws_list(
            toml_doc_of(text@),
            "exclude"@,
        ) is Some ==> r is Ok,
        r is Ok ==> exists|d: toml_edit::DocumentMut|
            {
                &&& #[trigger] doc_text_of(d) == r->Ok_0@
                &&& edited_ws_doc(
                    d,
                    toml_doc_of(text@),
                    match add_members {
                        Some(a) => Some(a@),
                        None => None,
                    },
                    match rm_members {
                        Some(m) => Some(m@),
                        None => None,
                    },
                    match add_exclude {
                        Some(a) => Some(a@),
                        None => None,
                    },
                    match rm_exclude {
                        Some(m) => Some(m@),
                        None => None,
                    },
                    root@,
                )
            },
{
    let mut d = match parse_toml(text) {
        Some(d) => d,
        None => {
            return Err(WsError::Parse);
        },
    };
    let ghost base = d;
    match edit_workspace_doc(&mut d, add_members, rm_members, add_exclude, rm_exclude, root) {
        Ok(_) => {
            let out = doc_to_string(&d);
            proof {
                let ghost am: Option<Seq<char>> = match add_members {
                    Some(a) => Some(a@),
                    None => None,
                };
                let ghost rmm: Option<Seq<char>> = match rm_members {
                    Some(m) => Some(m@),
                    None => None,
                };
                let ghost ae: Option<Seq<char>> = match add_exclude {
                    Some(a) => Some(a@),
                    None => None,
                };
                let ghost re: Option<Seq<char>> = match rm_exclude {
                    Some(m) => Some(m@),
                    None => None,
                };
                assert(doc_text_of(d) == out@);
                assert(edited_ws_doc(d, base, am, rmm, ae, re, root@));
                assert(exists|w: toml_edit::DocumentMut|
                    #[trigger] doc_text_of(w) == out@ && edited_ws_doc(
                        w,
                        base,
                        am,
                        rmm,
                        ae,
                        re,
                        root@,
                    ));
            }
            Ok(out)
        },
        Err(e) => Err(e),
    }
}

/// Renames the package: `package.name` becomes `name`, and the old name
/// comes back for reporting. `NotAString` exactly when there is no string
/// at `package.name`, in which case the document is untouched. The other
/// package fields and the workspace lists keep their values in every
/// case.
pub fn rename_package(d: &mut toml_edit::DocumentMut, name: &str) -> (r: Result<String, WsError>)
    ensures
        (r is Err) == (pkg_field(*old(d), "name"@) is None),
        r is Err ==> r->Err_0 == WsError::NotAString && *final(d) == *old(d),
        r is Ok ==> r->Ok_0@ == pkg_field(*old(d), "name"@)->Some_0,
        r is Ok ==> pkg_field(*final(d), "name"@) == Some(name@),
        forall|k2: Seq<char>|
            k2 != "name"@ ==> pkg_field(*final(d), k2) == pkg_field(*old(d), k2),
        forall|k2: Seq<char>|
            k2 != "name"@ ==> pkg_bool_field(*final(d), k2) == pkg_bool_field(*old(d), k2),
        forall|k2: Seq<char>| ws_list(*final(d), k2) == ws_list(*old(d), k2),
{
    let old_name = match get_pkg_str(d, "name") {
        Some(s) => s,
        None => {
            return Err(WsError::NotAString);
        },
    };
    set_pkg_str(d, "name", name);
    Ok(old_name)
}

/// What the renamed manifest's document must look like relative to the
/// one the input text parses to: the name set, everything else modelled
/// carried over.
pub open spec fn renamed_pkg_doc(
    d: toml_edit::DocumentMut,
    base: toml_edit::DocumentMut,
    name: Seq<char>,
) -> bool {
    &&& pkg_field(d, "name"@) == Some(name)
    &&& forall|k2: Seq<char>| k2 != "name"@ ==> pkg_field(d, k2) == pkg_field(base, k2)
    &&& forall|k2: Seq<char>|
        k2 != "name"@ ==> pkg_bool_field(d, k2) == pkg_bool_field(base, k2)
    &&& forall|k2: Seq<char>| ws_list(d, k2) == ws_list(base, k2)
}

/// The manifest-text form of `rename_package`: parse, rename, serialise.
/// `Parse` exactly when the text is not TOML; `NotAString` exactly when
/// the parsed text has no string at `package.name`. On success the old
/// name comes back, and the output serialises a document related to the
/// parsed text by `renamed_pkg_doc`: only the name changed among the
/// modelled parts.
pub fn rename_package_manifest(text: &str, name: &str) -> (r: Result<(String, String), WsError>)
    ensures
        (r == Err::<(String, String), WsError>(WsError::Parse)) == !toml_accepts(text@),
        r is Err ==> r->Err_0 == WsError::Parse || r->Err_0 == WsError::NotAString,
        toml_accepts(text@) ==> ((r is Err && r->Err_0 == WsError::NotAString) == (pkg_field(
            toml_doc_of(text@),
            "name"@,
        ) is None)),
        r is Ok ==> r->Ok_0.0@ == pkg_field(toml_doc_of(text@), "name"@)->Some_0,
        r is Ok ==> exists|d: toml_edit::DocumentMut|
            #[trigger] doc_text_of(d) == r->Ok_0.1@ && renamed_pkg_doc(
                d,
                toml_doc_of(text@),
                name@,
            ),
{
    let mut d = match parse_toml(text) {
        Some(d) => d,
        None => {
            return Err(WsError::Parse);
        },
    };
    let ghost base = d;
    match rename_package(&mut d, name) {
        Ok(old_name) => {
            let out = doc_to_string(&d);
            proof {
                assert(doc_text_of(d) == out@);
                assert(renamed_pkg_doc(d, base, name@));
                assert(exists|w: toml_edit::DocumentMut|
                    #[trigger] doc_text_of(w) == out@ && renamed_pkg_doc(w, base, name@));
            }
            Ok((old_name, out))
        },
        Err(e) => Err(e),
    }
}

/// Pins the template manifest down for use as a workspace member:
/// `package.version` becomes `0.0.0` and `package.publish` false. The old
/// version comes back for reporting; `NotAString` when the manifest has
/// no `package.name` to hang the edits on.
pub fn normalize_template_doc(d: &mut toml_edit::DocumentMut) -> (r: Result<
    Option<String>,
    WsError,
>)
    ensures
        (r is Err) == (pkg_field(*old(d), "name"@) is None),
        r is Err ==> r->Err_0 == WsError::NotAString && *final(d) == *old(d),
        r is Ok ==> pkg_field(*final(d), "version"@) == Some("0.0.0"@),
        r is Ok ==> pkg_bool_field(*final(d), "publish"@) == Some(false),
        r is Ok ==> pkg_field(*final(d), "publish"@) is None,
        r is Ok ==> forall|k2: Seq<char>|
            k2 != "version"@ && k2 != "publish"@ ==> pkg_field(*final(d), k2) == pkg_field(
                *old(d),
                k2,
            ),
        r is Ok ==> forall|k2: Seq<char>|
            k2 != "version"@ && k2 != "publish"@ ==> pkg_bool_field(*final(d), k2)
                == pkg_bool_field(*old(d), k2),
        r is Ok ==> (r->Ok_0 is Some) == (pkg_field(*old(d), "version"@) is Some),
        r is Ok ==> (r->Ok_0 is Some ==> r->Ok_0->Some_0@ == pkg_field(
            *old(d),
            "version"@,
        )->Some_0),
        forall|k2: Seq<char>| ws_list(*final(d), k2) == ws_list(*old(d), k2),
{
    match get_pkg_str(d, "name") {
        Some(_) => {},
        None => {
            return Err(WsError::NotAString);
        },
    }
    let old_version = get_pkg_str(d, "version");
    proof {
        reveal_strlit("name");
        reveal_strlit("version");
        reveal_strlit("publish");
        assert("version"@.len() == 7);
        assert("name"@.len() == 4);
        assert("publish"@.len() == 7);
        assert("version"@[0] == 'v');
        assert("publish"@[0] == 'p');
        assert("version"@ != "name"@);
        assert("publish"@ != "name"@);
        assert("publish"@ != "version"@);
    }
    set_pkg_str(d, "version", "0.0.0");
    set_pkg_bool(d, "publish", false);
    Ok(old_version)
}

/// What the pinned template's document must look like relative to the
/// one the input text parses to: version `0.0.0`, publish `false`, and
/// everything else modelled carried over.
pub open spec fn normalized_pkg_doc(d: toml_edit::DocumentMut, base: toml_edit::DocumentMut) -> bool {
    &&& pkg_field(d, "version"@) == Some("0.0.0"@)
    &&& pkg_bool_field(d, "publish"@) == Some(false)
    &&& pkg_field(d, "publish"@) is None
    &&& forall|k2: Seq<char>|
        k2 != "version"@ && k2 != "publish"@ ==> pkg_field(d, k2) == pkg_field(base, k2)
    &&& forall|k2: Seq<char>|
        k2 != "version"@ && k2 != "publish"@ ==> pkg_bool_field(d, k2) == pkg_bool_field(
            base,
            k2,
        )
    &&& forall|k2: Seq<char>| ws_list(d, k2) == ws_list(base, k2)
}

/// The manifest-text form of `normalize_template_doc`. `Parse` exactly
/// when the text is not TOML; `NotAString` exactly when the parsed text
/// names no package. On success the old version comes back, and the
/// output serialises a document related to the parsed text by
/// `normalized_pkg_doc`.
pub fn normalize_template_manifest(text: &str) -> (r: Result<(Option<String>, String), WsError>)
    ensures
        (r == Err::<(Option<String>, String), WsError>(WsError::Parse)) == !toml_accepts(text@),
        r is Err ==> r->Err_0 == WsError::Parse || r->Err_0 == WsError::NotAString,
        toml_accepts(text@) ==> ((r is Err && r->Err_0 == WsError::NotAString) == (pkg_field(
            toml_doc_of(text@),
            "name"@,
        ) is None)),
        r is Ok ==> (r->Ok_0.0 is Some) == (pkg_field(toml_doc_of(text@), "version"@) is Some),
        r is Ok ==> (r->Ok_0.0 is Some ==> r->Ok_0.0->Some_0@ == pkg_field(
            toml_doc_of(text@),
            "version"@,
        )->Some_0),
        r is Ok ==> exists|d: toml_edit::DocumentMut|
            #[trigger] doc_text_of(d) == r->Ok_0.1@ && normalized_pkg_doc(d, toml_doc_of(text@)),
{
    let mut d = match parse_toml(text) {
        Some(d) => d,
        None => {
            return Err(WsError::Parse);
        },
    };
    let ghost base = d;
    match normalize_template_doc(&mut d) {
        Ok(old_version) => {
            let out = doc_to_string(&d);
            proof {
                assert(doc_text_of(d) == out@);
                assert(normalized_pkg_doc(d, base));
                assert(exists|w: toml_edit::DocumentMut|
                    #[trigger] doc_text_of(w) == out@ && normalized_pkg_doc(w, base));
            }
            Ok((old_version, out))
        },
        Err(e) => Err(e),
    }
}

} // verus!
