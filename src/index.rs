//! The outside collections behind the record index: an insertion-ordered
//! hash table keyed by type spelling, hashed with a fixed-seed xxHash, and a
//! finite-state set of field names.
use vstd::prelude::*;
use vstd::utf8::encode_utf8;
use std::hash::BuildHasherDefault;
use indexmap::IndexMap;
use twox_hash::XxHash64;

verus! {

#[verifier::external_type_specification]
#[verifier::external_body]
pub struct ExXxHash64(XxHash64);

#[verifier::external_type_specification]
#[verifier::external_body]
#[verifier::reject_recursive_types(H)]
pub struct ExBuildHasherDefault<H>(BuildHasherDefault<H>);

#[verifier::external_type_specification]
#[verifier::external_body]
#[verifier::reject_recursive_types(K)]
#[verifier::reject_recursive_types(V)]
#[verifier::reject_recursive_types(S)]
pub struct ExIndexMap<K, V, S>(IndexMap<K, V, S>);

#[verifier::external_type_specification]
#[verifier::external_body]
#[verifier::reject_recursive_types(D)]
pub struct ExFstSet<D>(fst::Set<D>);

/// A table from type spellings to record positions.
pub type TypeTable = IndexMap<String, Vec<usize>, BuildHasherDefault<XxHash64>>;

/// What a type table maps each key's characters to.
pub uninterp spec fn table_entries(m: IndexMap<String, Vec<usize>, BuildHasherDefault<XxHash64>>) -> Map<Seq<char>, Seq<usize>>;

/// The byte strings that a name set holds.
pub uninterp spec fn name_set_keys(s: fst::Set<Vec<u8>>) -> Set<Seq<u8>>;

/// Relies on `IndexMap::default`, with `XxHash64::default` (seed 0) as the
/// hasher: a table with no entries.
#[verifier::external_body]
pub(crate) fn table_new() -> (r: TypeTable)
    ensures
        forall|k: Seq<char>| !table_entries(r).contains_key(k),
{
    IndexMap::default()
}

/// Relies on `IndexMap::get`: the value stored under the key, if there is one.
#[verifier::external_body]
pub(crate) fn table_get<'a>(m: &'a TypeTable, k: &str) -> (r: Option<&'a Vec<usize>>)
    ensures
        match r {
            Some(v) => table_entries(*m).contains_key(k@) && v@ == table_entries(*m)[k@],
            None => !table_entries(*m).contains_key(k@),
        },
{
    m.get(k)
}

/// Relies on `IndexMap::insert`: the key maps to the value afterwards, and
/// every other key keeps its value.
#[verifier::external_body]
pub(crate) fn table_insert(m: &mut TypeTable, k: String, v: Vec<usize>)
    ensures
        table_entries(*final(m)) == table_entries(*old(m)).insert(k@, v@),
{
    m.insert(k, v);
}

/// The UTF-8 encodings of the strings of `names`.
pub open spec fn encodings(names: Seq<String>) -> Set<Seq<u8>> {
    Set::new(|b: Seq<u8>| exists|i: int| 0 <= i < names.len() && b == encode_utf8(#[trigger] names[i]@))
}

/// `a` comes before `b` in lexicographic byte order (as `[u8]` orders).
pub open spec fn bytes_lt(a: Seq<u8>, b: Seq<u8>) -> bool
    decreases a.len(),
{
    if a.len() == 0 {
        b.len() > 0
    } else if b.len() == 0 {
        false
    } else if a[0] != b[0] {
        a[0] < b[0]
    } else {
        bytes_lt(a.drop_first(), b.drop_first())
    }
}

/// No string of `v` comes, in byte order, before one that precedes it.
pub open spec fn byte_sorted(v: Seq<String>) -> bool {
    forall|i: int, j: int|
        0 <= i < j < v.len() ==> !bytes_lt(encode_utf8(#[trigger] v[j]@), encode_utf8(#[trigger] v[i]@))
}

/// Relies on `fst::Set::from_iter`, which adds the keys to an in-memory
/// `SetBuilder`: adding fails only on a key that is less than the one before
/// (raw builder `check_last_key`; repeats are allowed in a set), and writing
/// to memory does not fail. A set that it returns holds exactly the keys.
#[verifier::external_body]
pub(crate) fn name_set_build(names: &Vec<String>) -> (r: Option<fst::Set<Vec<u8>>>)
    ensures
        r matches Some(s) ==> name_set_keys(s) == encodings(names@),
        byte_sorted(names@) ==> r is Some,
{
    fst::Set::from_iter(names.iter()).ok()
}

/// Relies on `fst::Set::contains`: whether the set holds the key's bytes.
#[verifier::external_body]
pub(crate) fn name_set_contains(s: &fst::Set<Vec<u8>>, key: &str) -> (r: bool)
    ensures
        r == name_set_keys(*s).contains(encode_utf8(key@)),
{
    s.contains(key)
}

/// Relies on `slice::sort` over `String`, whose order is the lexicographic
/// order of the bytes: the same strings, in ascending order.
#[verifier::external_body]
pub(crate) fn sort_strings(v: &mut Vec<String>)
    ensures
        final(v)@.to_multiset() == old(v)@.to_multiset(),
        byte_sorted(final(v)@),
{
    v.sort()
}

} // verus!
