//! The record shard of one file: the file's records, a table from each field
//! type to the records that have a field of that type, and a set of the
//! field names that occur.
use vstd::prelude::*;
use vstd::utf8::{encode_utf8, encode_utf8_decode_utf8};
use crate::index::{
    encodings, name_set_build, name_set_contains, name_set_keys, sort_strings, table_entries,
    table_get, table_insert, table_new, TypeTable,
};
use crate::matching::{field_matches, locs_view, some_field_matches};
use crate::model::{opt_view, Field, Loc, StructDef};

verus! {

/// `d` has a field of type `t`.
pub open spec fn has_field_type(d: StructDef, t: Seq<char>) -> bool {
    exists|j: int| 0 <= j < d.fields.items().len() && #[trigger] opt_view(d.fields.items()[j].ty) == Some(t)
}

/// `d` has a field named `n`.
pub open spec fn has_field_name(d: StructDef, n: Seq<char>) -> bool {
    exists|j: int| 0 <= j < d.fields.items().len() && #[trigger] opt_view(d.fields.items()[j].name) == Some(n)
}

/// A record query matches a record: both have the same shape (tuple or not),
/// and the criterion of some query field holds against some record field.
pub open spec fn record_matches(q: StructDef, d: StructDef) -> bool {
    q.is_tup == d.is_tup && some_field_matches(q.fields.items(), d.fields.items())
}

/// A record query matches a record of the same shape as soon as one query
/// field shares its name, or its type, with one field of the record: the
/// criteria are independent and their results are united.
pub proof fn lemma_record_match_by_name_or_type(q: StructDef, d: StructDef, x: int, j: int)
    requires
        q.is_tup == d.is_tup,
        0 <= x < q.fields.items().len(),
        0 <= j < d.fields.items().len(),
        (q.fields.items()[x].name is Some && opt_view(d.fields.items()[j].name) == opt_view(
            q.fields.items()[x].name,
        )) || (q.fields.items()[x].ty is Some && opt_view(d.fields.items()[j].ty) == opt_view(
            q.fields.items()[x].ty,
        )),
    ensures
        record_matches(q, d),
{
    assert(field_matches(q.fields.items()[x]@, d.fields.items()[j]@));
}

/// A tuple-shaped record query never matches a record with named fields,
/// and a query with named fields never matches a tuple-shaped record,
/// whatever the fields' types.
pub proof fn lemma_shape_isolation(q: StructDef, d: StructDef)
    requires
        q.is_tup != d.is_tup,
    ensures
        !record_matches(q, d),
{
}

/// The locations of the records of `defs` that satisfy `p`, in order.
pub open spec fn matching_records(defs: Seq<(Loc, StructDef)>, p: spec_fn(StructDef) -> bool) -> Seq<
    (Seq<char>, usize, usize),
>
    decreases defs.len(),
{
    if defs.len() == 0 {
        Seq::empty()
    } else {
        let prev = matching_records(defs.drop_last(), p);
        if p(defs.last().1) {
            prev.push(defs.last().0@)
        } else {
            prev
        }
    }
}

/// The record shard of one file.
pub struct StructDefMap {
    types: TypeTable,
    names: Option<fst::Set<Vec<u8>>>,
    all_defs: Vec<(Loc, StructDef)>,
}

/// `t` is a key of `m` and lists `i`.
pub open spec fn table_has(m: Map<Seq<char>, Seq<usize>>, t: Seq<char>, i: usize) -> bool {
    m.contains_key(t) && m[t].contains(i)
}

impl StructDefMap {
    /// The records of the shard, in the order they were inserted.
    pub closed spec fn records(&self) -> Seq<(Loc, StructDef)> {
        self.all_defs@
    }

    /// Whether the name set has been built since the last insertion.
    pub closed spec fn name_set_built(&self) -> bool {
        self.names is Some
    }

    /// The type table lists, under each type, exactly the records with a
    /// field of that type; the name set, once built, holds exactly the field
    /// names of the records.
    pub closed spec fn wf(&self) -> bool {
        &&& forall|t: Seq<char>, i: usize|
            #[trigger] table_has(table_entries(self.types), t, i) ==> i < self.all_defs@.len()
                && has_field_type(self.all_defs@[i as int].1, t)
        &&& forall|t: Seq<char>, i: usize|
            i < self.all_defs@.len() && #[trigger] has_field_type(self.all_defs@[i as int].1, t)
                ==> table_has(table_entries(self.types), t, i)
        &&& self.names matches Some(s) ==> forall|n: Seq<char>|
            #[trigger] name_set_keys(s).contains(encode_utf8(n)) <==> exists|i: int|
                0 <= i < self.all_defs@.len() && #[trigger] has_field_name(self.all_defs@[i].1, n)
    }
}

fn field_type_eq(f: &Field, t: &String) -> (r: bool)
    ensures
        r == (opt_view(f.ty) == Some(t@)),
{
    match &f.ty {
        Some(x) => *x == *t,
        None => false,
    }
}

fn field_name_eq(f: &Field, n: &String) -> (r: bool)
    ensures
        r == (opt_view(f.name) == Some(n@)),
{
    match &f.name {
        Some(x) => *x == *n,
        None => false,
    }
}

fn def_has_name(d: &StructDef, n: &String) -> (r: bool)
    ensures
        r == has_field_name(*d, n@),
{
    let len = d.fields.len();
    let mut j: usize = 0;
    while j < len
        invariant
            len == d.fields.items().len(),
            j <= len,
            forall|k: int| 0 <= k < j ==> opt_view(#[trigger] d.fields.items()[k].name) != Some(n@),
        decreases len - j,
    {
        if field_name_eq(d.fields.get(j), n) {
            return true;
        }
        j += 1;
    }
    false
}

fn copy_positions(v: &Vec<usize>) -> (r: Vec<usize>)
    ensures
        r@ == v@,
{
    let mut out: Vec<usize> = Vec::new();
    let mut i: usize = 0;
    while i < v.len()
        invariant
            i <= v@.len(),
            out@ == v@.take(i as int),
        decreases v.len() - i,
    {
        out.push(v[i]);
        i += 1;
        assert(out@ =~= v@.take(i as int));
    }
    assert(v@.take(i as int) =~= v@);
    out
}

impl StructDefMap {
    /// Whether the name set has been built since the last insertion; until
    /// it is, name lookups scan the records.
    pub fn has_name_set(&self) -> (r: bool)
        ensures
            r == self.name_set_built(),
    {
        self.names.is_some()
    }

    /// An empty shard; `defs_len` is a hint of how many records will come.
    pub fn new(defs_len: usize) -> (r: StructDefMap)
        ensures
            r.wf(),
            r.records() == Seq::<(Loc, StructDef)>::empty(),
            !r.name_set_built(),
    {
        StructDefMap { types: table_new(), names: None, all_defs: Vec::with_capacity(defs_len) }
    }

    /// Adds a record at the end of the shard. The name set must be built
    /// again afterwards (`finalize`); until then name lookups scan records.
    pub fn insert(&mut self, def: StructDef, loc: Loc)
        requires
            old(self).wf(),
            old(self).records().len() < usize::MAX,
        ensures
            final(self).wf(),
            final(self).records() == old(self).records().push((loc, def)),
            !final(self).name_set_built(),
    {
        let n = self.all_defs.len();
        let ghost old_types = table_entries(self.types);
        let ghost old_defs = self.all_defs@;
        let len = def.fields.len();
        let mut j: usize = 0;
        while j < len
            invariant
                len == def.fields.items().len(),
                j <= len,
                n == old_defs.len(),
                self.all_defs@ == old_defs,
                forall|t: Seq<char>, i: usize|
                    #[trigger] table_has(table_entries(self.types), t, i) <==> (table_has(old_types, t, i)
                        || (i == n && exists|k: int| 0 <= k < j && #[trigger] opt_view(def.fields.items()[k].ty) == Some(t))),
                forall|t: Seq<char>, i: usize| #[trigger] table_has(old_types, t, i) ==> i < n,
            decreases len - j,
        {
            let f = def.fields.get(j);
            match &f.ty {
                Some(t) => {
                    let cur = table_get(&self.types, t.as_str());
                    let mut v: Vec<usize> = match cur {
                        Some(v) => copy_positions(v),
                        None => Vec::new(),
                    };
                    let ghost before = table_entries(self.types);
                    let ghost tv = t@;
                    assert(opt_view(def.fields.items()[j as int].ty) == Some(tv));
                    let already = v.len() > 0 && v[v.len() - 1] == n;
                    if already {
                        assert(table_has(before, tv, n));
                        assert(!table_has(old_types, tv, n));
                    } else {
                        v.push(n);
                        table_insert(&mut self.types, t.clone(), v);
                        proof {
                            assert forall|t2: Seq<char>, i: usize|
                                #[trigger] table_has(table_entries(self.types), t2, i) <==> (
                                table_has(before, t2, i) || (t2 == tv && i == n)) by {
                                if t2 == tv {
                                    if i == n {
                                        assert(table_entries(self.types)[t2].last() == n);
                                    }
                                    if table_has(before, t2, i) {
                                        let k = choose|k: int| 0 <= k < before[t2].len() && before[t2][k] == i;
                                        assert(table_entries(self.types)[t2][k] == i);
                                    }
                                }
                            }
                        }
                    }
                },
                None => {},
            }
            j += 1;
            proof {
                assert forall|t2: Seq<char>, i: usize|
                    #[trigger] table_has(table_entries(self.types), t2, i) <==> (table_has(old_types, t2, i)
                        || (i == n && exists|k: int| 0 <= k < j && #[trigger] opt_view(def.fields.items()[k].ty) == Some(t2))) by {
                    if i == n && exists|k: int| 0 <= k < j && #[trigger] opt_view(def.fields.items()[k].ty) == Some(t2) {
                        let k = choose|k: int| 0 <= k < j && #[trigger] opt_view(def.fields.items()[k].ty) == Some(t2);
                        if k < j - 1 {
                            assert(exists|k2: int| 0 <= k2 < j - 1 && #[trigger] opt_view(def.fields.items()[k2].ty) == Some(t2));
                        }
                    }
                }
            }
        }
        self.all_defs.push((loc, def));
        self.names = None;
        proof {
            let defs = self.all_defs@;
            assert(defs[n as int].1 == def);
            assert forall|t: Seq<char>, i: usize|
                #[trigger] table_has(table_entries(self.types), t, i) implies i < defs.len()
                    && has_field_type(defs[i as int].1, t) by {
                if table_has(old_types, t, i) {
                    assert(defs[i as int] == old_defs[i as int]);
                } else {
                    let k = choose|k: int| 0 <= k < len && #[trigger] opt_view(def.fields.items()[k].ty) == Some(t);
                    assert(opt_view(defs[i as int].1.fields.items()[k].ty) == Some(t));
                }
            }
            assert forall|t: Seq<char>, i: usize|
                i < defs.len() && #[trigger] has_field_type(defs[i as int].1, t)
                    implies table_has(table_entries(self.types), t, i) by {
                if i < n {
                    assert(defs[i as int] == old_defs[i as int]);
                    assert(has_field_type(old_defs[i as int].1, t));
                } else {
                    let k = choose|k: int| 0 <= k < def.fields.items().len() && #[trigger] opt_view(def.fields.items()[k].ty) == Some(t);
                    assert(opt_view(def.fields.items()[k].ty) == Some(t));
                }
            }
        }
    }
}

/// Some field of the query's fields before position `a` has a criterion that
/// holds against some field of `d`.
pub open spec fn criteria_upto(qs: Seq<Field>, a: int, d: StructDef) -> bool {
    exists|x: int, j: int|
        0 <= x < a && 0 <= j < d.fields.items().len() && #[trigger] field_matches(
            qs[x]@,
            d.fields.items()[j]@,
        )
}

/// Some string of `v` has the characters `s`.
pub open spec fn in_names(v: Seq<String>, s: Seq<char>) -> bool {
    exists|k: int| 0 <= k < v.len() && #[trigger] v[k]@ == s
}

/// One of the first `j` fields of `d` is named `s`.
pub open spec fn named_before(d: StructDef, j: int, s: Seq<char>) -> bool {
    exists|x: int| 0 <= x < j && #[trigger] opt_view(d.fields.items()[x].name) == Some(s)
}

/// One of the first `i` records of `defs` has a field named `s`.
pub open spec fn named_in_prefix(defs: Seq<(Loc, StructDef)>, i: int, s: Seq<char>) -> bool {
    exists|r: int| 0 <= r < i && #[trigger] has_field_name(defs[r].1, s)
}

fn all_false(n: usize) -> (r: Vec<bool>)
    ensures
        r@.len() == n,
        forall|i: int| 0 <= i < n ==> !#[trigger] r@[i],
{
    let mut v: Vec<bool> = Vec::new();
    while v.len() < n
        invariant
            v@.len() <= n,
            forall|i: int| 0 <= i < v@.len() ==> !#[trigger] v@[i],
        decreases n - v@.len(),
    {
        v.push(false);
    }
    v
}

impl StructDefMap {
    /// Builds the name set from the field names of the records.
    pub fn finalize(&mut self)
        requires
            old(self).wf(),
        ensures
            final(self).wf(),
            final(self).records() == old(self).records(),
            final(self).name_set_built(),
    {
        let mut names: Vec<String> = Vec::new();
        let n = self.all_defs.len();
        let mut i: usize = 0;
        while i < n
            invariant
                n == self.all_defs@.len(),
                i <= n,
                forall|s: Seq<char>|
                    #[trigger] in_names(names@, s) <==> named_in_prefix(self.all_defs@, i as int, s),
            decreases n - i,
        {
            let d = &self.all_defs[i].1;
            let len = d.fields.len();
            let mut j: usize = 0;
            while j < len
                invariant
                    n == self.all_defs@.len(),
                    i < n,
                    *d == self.all_defs@[i as int].1,
                    len == d.fields.items().len(),
                    j <= len,
                    forall|s: Seq<char>|
                        #[trigger] in_names(names@, s) <==> (named_in_prefix(self.all_defs@, i as int, s)
                            || named_before(*d, j as int, s)),
                decreases len - j,
            {
                let ghost old_names = names@;
                match &d.fields.get(j).name {
                    Some(nm) => {
                        names.push(nm.clone());
                        proof {
                            assert forall|s: Seq<char>|
                                #[trigger] in_names(names@, s) <==> (in_names(old_names, s) || s == nm@) by {
                                if in_names(names@, s) {
                                    let k = choose|k: int| 0 <= k < names@.len() && #[trigger] names@[k]@ == s;
                                    if k < old_names.len() {
                                        assert(old_names[k]@ == s);
                                    }
                                }
                                if in_names(old_names, s) {
                                    let k = choose|k: int| 0 <= k < old_names.len() && #[trigger] old_names[k]@ == s;
                                    assert(names@[k]@ == s);
                                }
                                if s == nm@ {
                                    assert(names@[old_names.len() as int]@ == s);
                                }
                            }
                        }
                    },
                    None => {},
                }
                proof {
                    assert forall|s: Seq<char>|
                        #[trigger] named_before(*d, j + 1, s) <==> (named_before(*d, j as int, s)
                            || opt_view(d.fields.items()[j as int].name) == Some(s)) by {
                        if named_before(*d, j + 1, s) {
                            let x = choose|x: int| 0 <= x < j + 1 && #[trigger] opt_view(d.fields.items()[x].name) == Some(s);
                            if x < j {
                                assert(opt_view(d.fields.items()[x].name) == Some(s));
                            }
                        }
                    }
                }
                j += 1;
            }
            proof {
                assert forall|s: Seq<char>|
                    #[trigger] named_in_prefix(self.all_defs@, i + 1, s) <==> (named_in_prefix(self.all_defs@, i as int, s)
                        || has_field_name(*d, s)) by {
                    if named_in_prefix(self.all_defs@, i + 1, s) {
                        let r = choose|r: int| 0 <= r < i + 1 && #[trigger] has_field_name(self.all_defs@[r].1, s);
                        if r < i {
                            assert(has_field_name(self.all_defs@[r].1, s));
                        }
                    }
                    if has_field_name(*d, s) {
                        let x = choose|x: int| 0 <= x < d.fields.items().len() && #[trigger] opt_view(d.fields.items()[x].name) == Some(s);
                        assert(opt_view(d.fields.items()[x].name) == Some(s));
                    }
                }
            }
            i += 1;
        }
        let ghost unsorted = names@;
        sort_strings(&mut names);
        proof {
            assert forall|s: Seq<char>|
                #[trigger] in_names(names@, s) <==> in_names(unsorted, s) by {
                unsorted.to_multiset_ensures();
                names@.to_multiset_ensures();
                if in_names(names@, s) {
                    let k = choose|k: int| 0 <= k < names@.len() && #[trigger] names@[k]@ == s;
                    assert(names@.contains(names@[k]));
                    assert(unsorted.to_multiset().count(names@[k]) > 0);
                    assert(unsorted.contains(names@[k]));
                }
                if in_names(unsorted, s) {
                    let k = choose|k: int| 0 <= k < unsorted.len() && #[trigger] unsorted[k]@ == s;
                    assert(unsorted.contains(unsorted[k]));
                    assert(names@.to_multiset().count(unsorted[k]) > 0);
                    assert(names@.contains(unsorted[k]));
                }
            }
        }
        let set = name_set_build(&names);
        self.names = set;
        proof {
            broadcast use encode_utf8_decode_utf8;
            if set is Some {
                let keys = name_set_keys(set.unwrap());
                assert forall|s: Seq<char>|
                    #[trigger] keys.contains(encode_utf8(s)) <==> in_names(names@, s) by {
                    assert(keys == encodings(names@));
                    if keys.contains(encode_utf8(s)) {
                        let k = choose|k: int| 0 <= k < names@.len() && encode_utf8(s) == encode_utf8(#[trigger] names@[k]@);
                        assert(vstd::utf8::decode_utf8(encode_utf8(s)) == s);
                        assert(vstd::utf8::decode_utf8(encode_utf8(names@[k]@)) == names@[k]@);
                    }
                    if in_names(names@, s) {
                        let k = choose|k: int| 0 <= k < names@.len() && #[trigger] names@[k]@ == s;
                        assert(encodings(names@).contains(encode_utf8(names@[k]@)));
                    }
                }
                assert forall|s: Seq<char>|
                    #[trigger] keys.contains(encode_utf8(s)) <==> exists|r: int|
                        0 <= r < self.all_defs@.len() && #[trigger] has_field_name(self.all_defs@[r].1, s) by {
                    assert(in_names(names@, s) == in_names(unsorted, s));
                    assert(in_names(unsorted, s) == named_in_prefix(self.all_defs@, n as int, s));
                }
            }
        }
    }
}

impl StructDefMap {
    /// Marks every record with a field of type `t`.
    fn mark_type(&self, mask: &mut Vec<bool>, t: &str)
        requires
            self.wf(),
            old(mask)@.len() == self.all_defs@.len(),
        ensures
            final(mask)@.len() == old(mask)@.len(),
            forall|i: int|
                0 <= i < final(mask)@.len() ==> #[trigger] final(mask)@[i] == (old(mask)@[i]
                    || has_field_type(self.all_defs@[i].1, t@)),
    {
        let ghost m0 = mask@;
        let mlen = mask.len();
        let ghost entries = table_entries(self.types);
        match table_get(&self.types, t) {
            Some(v) => {
                proof {
                    assert forall|x: int| 0 <= x < v@.len() implies (#[trigger] v@[x] as int) < mask@.len() by {
                        assert(table_has(entries, t@, v@[x]));
                    }
                }
                let mut k: usize = 0;
                while k < v.len()
                    invariant
                        self.wf(),
                        entries == table_entries(self.types),
                        entries.contains_key(t@),
                        v@ == entries[t@],
                        k <= v@.len(),
                        mask@.len() == m0.len() == self.all_defs@.len() == mlen,
                        forall|i: int|
                            0 <= i < mask@.len() ==> #[trigger] mask@[i] ==> (m0[i] || has_field_type(
                                self.all_defs@[i].1,
                                t@,
                            )),
                        forall|i: int| 0 <= i < mask@.len() ==> m0[i] ==> #[trigger] mask@[i],
                        forall|x: int| 0 <= x < v@.len() ==> (#[trigger] v@[x] as int) < mask@.len(),
                        forall|x: int| 0 <= x < k ==> mask@[#[trigger] v@[x] as int],
                    decreases v.len() - k,
                {
                    let p = v[k];
                    assert(table_has(entries, t@, p));
                    mask.set(p, true);
                    k += 1;
                }
                proof {
                    assert forall|i: int|
                        0 <= i < mask@.len() && has_field_type(self.all_defs@[i].1, t@) implies #[trigger] mask@[i] by {
                        let iu = i as usize;
                        assert(has_field_type(self.all_defs@[iu as int].1, t@));
                        assert(table_has(entries, t@, iu));
                        let x = choose|x: int| 0 <= x < v@.len() && v@[x] == i as usize;
                        assert(mask@[v@[x] as int]);
                    }
                }
            },
            None => {
                proof {
                    assert forall|i: int|
                        0 <= i < mask@.len() implies !has_field_type(self.all_defs@[i].1, t@) by {
                        if has_field_type(self.all_defs@[i].1, t@) {
                            let iu = i as usize;
                            assert(has_field_type(self.all_defs@[iu as int].1, t@));
                            assert(table_has(entries, t@, iu));
                        }
                    }
                }
            },
        }
    }

    /// Marks every record with a field named `n`. The name set, when built,
    /// rules a name out without looking at any record.
    fn mark_name(&self, mask: &mut Vec<bool>, n: &str)
        requires
            self.wf(),
            old(mask)@.len() == self.all_defs@.len(),
        ensures
            final(mask)@.len() == old(mask)@.len(),
            forall|i: int|
                0 <= i < final(mask)@.len() ==> #[trigger] final(mask)@[i] == (old(mask)@[i]
                    || has_field_name(self.all_defs@[i].1, n@)),
    {
        let present = match &self.names {
            Some(set) => name_set_contains(set, n),
            None => true,
        };
        if !present {
            proof {
                assert forall|i: int|
                    0 <= i < mask@.len() implies !has_field_name(self.all_defs@[i].1, n@) by {
                    if has_field_name(self.all_defs@[i].1, n@) {
                        let s = self.names.unwrap();
                        assert(name_set_keys(s).contains(encode_utf8(n@)));
                    }
                }
            }
            return;
        }
        let key = crate::model::owned(n);
        let ghost m0 = mask@;
        let mut i: usize = 0;
        while i < self.all_defs.len()
            invariant
                key@ == n@,
                i <= self.all_defs@.len(),
                mask@.len() == m0.len() == self.all_defs@.len(),
                forall|r: int| 0 <= r < i ==> #[trigger] mask@[r] == (m0[r] || has_field_name(self.all_defs@[r].1, n@)),
                forall|r: int| i <= r < mask@.len() ==> #[trigger] mask@[r] == m0[r],
            decreases self.all_defs@.len() - i,
        {
            if def_has_name(&self.all_defs[i].1, &key) {
                mask.set(i, true);
            }
            i += 1;
        }
    }

    /// The locations of the marked records of the given shape, in order.
    fn collect(&self, mask: &Vec<bool>, is_tup: bool, Ghost(p): Ghost<spec_fn(StructDef) -> bool>) -> (r: Vec<Loc>)
        requires
            mask@.len() == self.all_defs@.len(),
            forall|i: int| 0 <= i < mask@.len() ==> #[trigger] mask@[i] == p(self.all_defs@[i].1),
        ensures
            locs_view(r@) == matching_records(self.all_defs@, |d: StructDef| d.is_tup == is_tup && p(d)),
    {
        let ghost q = |d: StructDef| d.is_tup == is_tup && p(d);
        let mut out: Vec<Loc> = Vec::new();
        let mut i: usize = 0;
        while i < self.all_defs.len()
            invariant
                i <= self.all_defs@.len(),
                mask@.len() == self.all_defs@.len(),
                forall|i: int| 0 <= i < mask@.len() ==> #[trigger] mask@[i] == p(self.all_defs@[i].1),
                q == (|d: StructDef| d.is_tup == is_tup && p(d)),
                locs_view(out@) == matching_records(self.all_defs@.take(i as int), q),
            decreases self.all_defs@.len() - i,
        {
            assert(self.all_defs@.take(i + 1).drop_last() =~= self.all_defs@.take(i as int));
            assert(self.all_defs@.take(i + 1).last() == self.all_defs@[i as int]);
            let d = &self.all_defs[i].1;
            assert(mask@[i as int] == p(self.all_defs@[i as int].1));
            assert(q(self.all_defs@[i as int].1) == (self.all_defs@[i as int].1.is_tup == is_tup && p(self.all_defs@[i as int].1)));
            if mask[i] && d.is_tup == is_tup {
                out.push(self.all_defs[i].0.duplicate());
                assert(locs_view(out@) =~= locs_view(out@.drop_last()).push(out@.last()@));
            }
            i += 1;
        }
        assert(self.all_defs@.take(i as int) =~= self.all_defs@);
        out
    }

    /// The locations of the records of the given shape with a field of type
    /// `field_type` (a normalized spelling), in the order of the shard.
    pub fn find_types(&self, field_type: &str, is_tup: bool) -> (r: Vec<Loc>)
        requires
            self.wf(),
        ensures
            locs_view(r@) == matching_records(
                self.records(),
                |d: StructDef| d.is_tup == is_tup && has_field_type(d, field_type@),
            ),
    {
        let mut mask = all_false(self.all_defs.len());
        self.mark_type(&mut mask, field_type);
        let ghost p = |d: StructDef| has_field_type(d, field_type@);
        let r = self.collect(&mask, is_tup, Ghost(p));
        assert((|d: StructDef| d.is_tup == is_tup && p(d)) =~= (|d: StructDef|
            d.is_tup == is_tup && has_field_type(d, field_type@)));
        r
    }

    /// The locations of the records of the given shape with a field named
    /// exactly `field_name` (a normalized identifier), in the order of the
    /// shard. The name set answers exact membership only; no prefix lookup.
    pub fn find_names(&self, field_name: &str, is_tup: bool) -> (r: Vec<Loc>)
        requires
            self.wf(),
        ensures
            locs_view(r@) == matching_records(
                self.records(),
                |d: StructDef| d.is_tup == is_tup && has_field_name(d, field_name@),
            ),
    {
        let mut mask = all_false(self.all_defs.len());
        self.mark_name(&mut mask, field_name);
        let ghost p = |d: StructDef| has_field_name(d, field_name@);
        let r = self.collect(&mask, is_tup, Ghost(p));
        assert((|d: StructDef| d.is_tup == is_tup && p(d)) =~= (|d: StructDef|
            d.is_tup == is_tup && has_field_name(d, field_name@)));
        r
    }
}

proof fn lemma_criteria_step(qs: Seq<Field>, a: int, d: StructDef)
    requires
        0 <= a < qs.len(),
    ensures
        criteria_upto(qs, a + 1, d) == (criteria_upto(qs, a, d) || (qs[a].name is Some
            && has_field_name(d, opt_view(qs[a].name).unwrap())) || (qs[a].ty is Some
            && has_field_type(d, opt_view(qs[a].ty).unwrap()))),
{
    let items = d.fields.items();
    if criteria_upto(qs, a + 1, d) {
        let (x, j) = choose|x: int, j: int|
            0 <= x < a + 1 && 0 <= j < items.len() && #[trigger] field_matches(qs[x]@, items[j]@);
        if x < a {
            assert(field_matches(qs[x]@, items[j]@));
        } else {
            if qs[a].name is Some && items[j]@.0 == qs[a]@.0 {
                assert(opt_view(items[j].name) == Some(opt_view(qs[a].name).unwrap()));
            } else {
                assert(opt_view(items[j].ty) == Some(opt_view(qs[a].ty).unwrap()));
            }
        }
    }
    if qs[a].name is Some && has_field_name(d, opt_view(qs[a].name).unwrap()) {
        let j = choose|j: int| 0 <= j < items.len() && #[trigger] opt_view(items[j].name) == Some(opt_view(qs[a].name).unwrap());
        assert(field_matches(qs[a]@, items[j]@));
    }
    if qs[a].ty is Some && has_field_type(d, opt_view(qs[a].ty).unwrap()) {
        let j = choose|j: int| 0 <= j < items.len() && #[trigger] opt_view(items[j].ty) == Some(opt_view(qs[a].ty).unwrap());
        assert(field_matches(qs[a]@, items[j]@));
    }
    if criteria_upto(qs, a, d) {
        let (x, j) = choose|x: int, j: int|
            0 <= x < a && 0 <= j < items.len() && #[trigger] field_matches(qs[x]@, items[j]@);
        assert(field_matches(qs[x]@, items[j]@));
    }
}

impl StructDefMap {
    /// The locations of the records that the record query matches, in the
    /// order of the shard: every field criterion of the query is looked up
    /// (names in the name set, types in the type table) and the records found
    /// are united, keeping those of the query's shape.
    pub fn search(&self, query: &StructDef) -> (r: Vec<Loc>)
        requires
            self.wf(),
        ensures
            locs_view(r@) == matching_records(self.records(), |d: StructDef| record_matches(*query, d)),
    {
        let ghost qs = query.fields.items();
        let mut mask = all_false(self.all_defs.len());
        let len = query.fields.len();
        let mut a: usize = 0;
        while a < len
            invariant
                self.wf(),
                qs == query.fields.items(),
                len == qs.len(),
                a <= len,
                mask@.len() == self.all_defs@.len(),
                forall|i: int| 0 <= i < mask@.len() ==> #[trigger] mask@[i] == criteria_upto(qs, a as int, self.all_defs@[i].1),
            decreases len - a,
        {
            let f = query.fields.get(a);
            let ghost m0 = mask@;
            match &f.name {
                Some(nm) => self.mark_name(&mut mask, nm.as_str()),
                None => {},
            }
            let ghost m1 = mask@;
            match &f.ty {
                Some(t) => self.mark_type(&mut mask, t.as_str()),
                None => {},
            }
            proof {
                assert forall|i: int| 0 <= i < mask@.len() implies #[trigger] mask@[i] == criteria_upto(qs, a + 1, self.all_defs@[i].1) by {
                    lemma_criteria_step(qs, a as int, self.all_defs@[i].1);
                    assert(m0[i] == criteria_upto(qs, a as int, self.all_defs@[i].1));
                    assert(m1[i] == (m0[i] || (f.name is Some && has_field_name(self.all_defs@[i].1, opt_view(f.name).unwrap()))));
                }
            }
            a += 1;
        }
        let ghost p = |d: StructDef| criteria_upto(qs, len as int, d);
        let r = self.collect(&mask, query.is_tup, Ghost(p));
        proof {
            assert forall|d: StructDef| #[trigger] p(d) == some_field_matches(qs, d.fields.items()) by {
                if p(d) {
                    let (x, j) = choose|x: int, j: int|
                        0 <= x < len && 0 <= j < d.fields.items().len() && #[trigger] field_matches(qs[x]@, d.fields.items()[j]@);
                    assert(field_matches(qs[x]@, d.fields.items()[j]@));
                }
                if some_field_matches(qs, d.fields.items()) {
                    let (x, j) = choose|x: int, j: int|
                        0 <= x < qs.len() && 0 <= j < d.fields.items().len() && #[trigger] field_matches(qs[x]@, d.fields.items()[j]@);
                    assert(field_matches(qs[x]@, d.fields.items()[j]@));
                }
            }
            assert((|d: StructDef| d.is_tup == query.is_tup && p(d)) =~= (|d: StructDef| record_matches(*query, d)));
        }
        r
    }
}

} // verus!
