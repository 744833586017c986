use vstd::prelude::*;

use crate::direct::{DirectError, DirectErrorView};

verus! {

#[verifier::external_type_specification]
#[verifier::external_body]
pub struct ExCiboriumValue(ciborium::Value);

/// The shape of a CBOR item as the protocol reads it.
pub enum CborTree {
    Text(Seq<char>),
    /// A CBOR map: its key-value pairs, in order.
    Object(Seq<(CborTree, CborTree)>),
    Other,
}

/// A CBOR item, holding what the protocol reads of it: text strings, maps
/// with their pairs in order, and any other kind of item as `Other`.
#[derive(Debug)]
pub enum CborValue {
    Text(String),
    /// A CBOR map: its key-value pairs, in order.
    Object(Vec<(CborValue, CborValue)>),
    /// Any item that is neither text nor a map.
    Other,
}

pub open spec fn value_tree(v: CborValue) -> CborTree
    decreases v, 0int,
{
    match v {
        CborValue::Text(s) => CborTree::Text(s@),
        CborValue::Object(m) => CborTree::Object(entries_tree(m@)),
        CborValue::Other => CborTree::Other,
    }
}

pub open spec fn entries_tree(m: Seq<(CborValue, CborValue)>) -> Seq<(CborTree, CborTree)>
    decreases m, 1int,
{
    if m.len() == 0 {
        Seq::empty()
    } else {
        seq![(value_tree(m[0].0), value_tree(m[0].1))] + entries_tree(m.subrange(1, m.len() as int))
    }
}

impl View for CborValue {
    type V = CborTree;

    open spec fn view(&self) -> CborTree {
        value_tree(*self)
    }
}

pub proof fn lemma_entries_tree(m: Seq<(CborValue, CborValue)>)
    ensures
        entries_tree(m).len() == m.len(),
        forall|i: int|
            0 <= i < m.len() ==> #[trigger] entries_tree(m)[i] == (value_tree(m[i].0), value_tree(
                m[i].1,
            )),
    decreases m.len(),
{
    if m.len() > 0 {
        let rest = m.subrange(1, m.len() as int);
        lemma_entries_tree(rest);
        assert forall|i: int| 0 <= i < m.len() implies #[trigger] entries_tree(m)[i] == (
            value_tree(m[i].0),
            value_tree(m[i].1),
        ) by {
            if i > 0 {
                assert(m[i] == rest[i - 1]);
            }
        }
    }
}

/// The CBOR item that `bytes` begin with, as `ciborium::from_reader` reads it,
/// or the text of ciborium's error.
pub uninterp spec fn cbor_decoded(bytes: Seq<u8>) -> Result<CborTree, Seq<char>>;

/// The bytes `ciborium::into_writer` writes for an item.
pub uninterp spec fn cbor_encoded(tree: CborTree) -> Seq<u8>;

/// Carries a `ciborium::Value` over into the library's own type: text and maps
/// keep their content, each other kind of item becomes `Other`.
/// The input is opaque here, so nothing is stated.
#[verifier::external_body]
fn from_ciborium(value: ciborium::Value) -> CborValue {
    match value {
        ciborium::Value::Text(s) => CborValue::Text(s),
        ciborium::Value::Map(m) => CborValue::Object(
            m.into_iter().map(|(k, v)| (from_ciborium(k), from_ciborium(v))).collect(),
        ),
        _ => CborValue::Other,
    }
}

/// Carries the library's value over into a `ciborium::Value`: text and maps
/// one for one, `Other` as CBOR null. The result is opaque here, so nothing is stated.
#[verifier::external_body]
fn to_ciborium(value: &CborValue) -> ciborium::Value {
    match value {
        CborValue::Text(s) => ciborium::Value::Text(s.clone()),
        CborValue::Object(m) => ciborium::Value::Map(
            m.iter().map(|(k, v)| (to_ciborium(k), to_ciborium(v))).collect(),
        ),
        CborValue::Other => ciborium::Value::Null,
    }
}

/// `ciborium::from_reader` into a `ciborium::Value`: the first CBOR item in
/// `bytes`, or the text of ciborium's error.
#[verifier::external_body]
pub(crate) fn cbor_from_bytes(bytes: &[u8]) -> (res: Result<CborValue, String>)
    ensures
        match res {
            Ok(v) => cbor_decoded(bytes@) == Ok::<CborTree, Seq<char>>(v@),
            Err(e) => cbor_decoded(bytes@) == Err::<CborTree, Seq<char>>(e@),
        },
{
    match ciborium::from_reader::<ciborium::Value, _>(bytes) {
        Ok(v) => Ok(from_ciborium(v)),
        Err(e) => Err(e.to_string()),
    }
}

/// Whether maps nest in `tree` at most `depth` deep.
pub open spec fn within_depth(tree: CborTree, depth: nat) -> bool
    decreases depth,
{
    match tree {
        CborTree::Object(entries) => depth > 0 && forall|i: int|
            0 <= i < entries.len() ==> within_depth(#[trigger] entries[i].0, (depth - 1) as nat)
                && within_depth(entries[i].1, (depth - 1) as nat),
        _ => true,
    }
}

/// How deep the items handed to ciborium may nest: well inside the nesting
/// limit ciborium's reader enforces.
pub open spec fn max_nesting() -> nat {
    64
}

/// `ciborium::into_writer` into a byte vector. Writing text, maps and null into a
/// vector does not fail, and, for items that nest no deeper than `max_nesting`,
/// ciborium reads the bytes back as the same item.
#[verifier::external_body]
pub(crate) fn cbor_to_bytes(value: &CborValue) -> (res: Option<Vec<u8>>)
    requires
        within_depth(value@, max_nesting()),
    ensures
        res is Some,
        res matches Some(b) ==> (b@ == cbor_encoded(value@)
            && cbor_decoded(b@) == Ok::<CborTree, Seq<char>>(value@)),
{
    let mut buf = Vec::new();
    match ciborium::into_writer(&to_ciborium(value), &mut buf) {
        Ok(()) => Some(buf),
        Err(_) => None,
    }
}

/// The value under the first key in `entries` that is the text `key`.
pub open spec fn tree_lookup(entries: Seq<(CborTree, CborTree)>, key: Seq<char>) -> Option<CborTree>
    decreases entries.len(),
{
    if entries.len() == 0 {
        None
    } else if entries[0].0 == CborTree::Text(key) {
        Some(entries[0].1)
    } else {
        tree_lookup(entries.drop_first(), key)
    }
}

/// The value under `key` in the map `tree`.
pub open spec fn tree_get(tree: CborTree, key: Seq<char>) -> Result<CborTree, DirectErrorView> {
    match tree {
        CborTree::Object(entries) => match tree_lookup(entries, key) {
            Some(v) => Ok(v),
            None => Err(DirectErrorView::MissingField(key)),
        },
        _ => Err(DirectErrorView::ExpectedMap(key)),
    }
}

/// The value reached from `tree` by the keys in order.
pub open spec fn tree_walk(tree: CborTree, keys: Seq<Seq<char>>) -> Result<CborTree, DirectErrorView>
    decreases keys.len(),
{
    if keys.len() == 0 {
        Ok(tree)
    } else {
        match tree_get(tree, keys[0]) {
            Ok(next) => tree_walk(next, keys.drop_first()),
            Err(e) => Err(e),
        }
    }
}

/// The text reached from `tree` by the keys of `path` in order.
pub open spec fn tree_get_str(tree: CborTree, path: Seq<Seq<char>>) -> Result<Seq<char>, DirectErrorView> {
    if path.len() == 0 {
        Err(DirectErrorView::EmptyPath)
    } else {
        match tree_walk(tree, path.drop_last()) {
            Err(e) => Err(e),
            Ok(parent) => match tree_get(parent, path.last()) {
                Err(e) => Err(e),
                Ok(CborTree::Text(s)) => Ok(s),
                Ok(_) => Err(DirectErrorView::NotText(path.last())),
            },
        }
    }
}

/// The texts of a path of keys.
pub open spec fn path_texts(path: Seq<&str>) -> Seq<Seq<char>> {
    path.map_values(|k: &str| k@)
}

/// The value under `key` in the map `value`: the first pair whose key is that text.
pub fn get_value<'a>(value: &'a CborValue, key: &str) -> (res: Result<&'a CborValue, DirectError>)
    ensures
        match res {
            Ok(v) => tree_get(value@, key@) == Ok::<CborTree, DirectErrorView>(v@),
            Err(e) => tree_get(value@, key@) == Err::<CborTree, DirectErrorView>(e@),
        },
{
    match value {
        CborValue::Object(m) => {
            let wanted = key.to_owned();
            proof {
                lemma_entries_tree(m@);
            }
            let ghost entries = entries_tree(m@);
            let mut i: usize = 0;
            proof {
                assert(entries.skip(0) =~= entries);
                assert(value@ == CborTree::Object(entries));
            }
            while i < m.len()
                invariant
                    i <= m.len(),
                    wanted@ == key@,
                    value@ == CborTree::Object(entries),
                    entries == entries_tree(m@),
                    entries.len() == m.len(),
                    forall|j: int|
                        0 <= j < m.len() ==> #[trigger] entries[j] == (
                            value_tree(m@[j].0),
                            value_tree(m@[j].1),
                        ),
                    tree_lookup(entries, key@) == tree_lookup(entries.skip(i as int), key@),
                decreases m.len() - i,
            {
                let pair = &m[i];
                let found = match &pair.0 {
                    CborValue::Text(s) => s.eq(&wanted),
                    _ => false,
                };
                proof {
                    assert(*pair == m@[i as int]);
                    assert(entries.skip(i as int)[0] == entries[i as int]);
                    if !found {
                        assert(entries[i as int].0 != CborTree::Text(key@));
                    }
                    assert(entries.skip(i as int).drop_first() =~= entries.skip(i + 1));
                }
                if found {
                    proof {
                        assert(value_tree(pair.0) == CborTree::Text(key@));
                        assert(entries[i as int] == (value_tree(pair.0), value_tree(pair.1)));
                    }
                    return Ok(&pair.1);
                }
                i = i + 1;
            }
            Err(DirectError::MissingField(key.to_owned()))
        },
        _ => Err(DirectError::ExpectedMap(key.to_owned())),
    }
}

/// The text reached from `value` by the keys of `path` in order: every key but
/// the last must lead to a map, and the last to a text.
pub fn get_str<'a>(value: &'a CborValue, path: &[&str]) -> (res: Result<&'a String, DirectError>)
    ensures
        match res {
            Ok(s) => tree_get_str(value@, path_texts(path@)) == Ok::<Seq<char>, DirectErrorView>(s@),
            Err(e) => tree_get_str(value@, path_texts(path@)) == Err::<Seq<char>, DirectErrorView>(e@),
        },
{
    let ghost keys = path_texts(path@);
    if path.len() == 0 {
        return Err(DirectError::EmptyPath);
    }
    let last = path.len() - 1;
    let mut current = value;
    let mut i: usize = 0;
    proof {
        assert(keys.drop_last().skip(0) =~= keys.drop_last());
    }
    while i < last
        invariant
            last == path.len() - 1,
            i <= last,
            keys == path_texts(path@),
            tree_walk(value@, keys.drop_last()) == tree_walk(current@, keys.drop_last().skip(i as int)),
        decreases last - i,
    {
        let next = get_value(current, path[i]);
        proof {
            let rest = keys.drop_last().skip(i as int);
            assert(rest[0] == path[i as int]@);
            assert(rest.drop_first() =~= keys.drop_last().skip(i + 1));
        }
        match next {
            Ok(v) => {
                current = v;
            },
            Err(e) => {
                return Err(e);
            },
        }
        i = i + 1;
    }
    proof {
        assert(keys.drop_last().skip(last as int) =~= Seq::<Seq<char>>::empty());
        assert(keys.last() == path[last as int]@);
    }
    match get_value(current, path[last]) {
        Ok(CborValue::Text(s)) => Ok(s),
        Ok(_) => Err(DirectError::NotText(path[last].to_owned())),
        Err(e) => Err(e),
    }
}

} // verus!
