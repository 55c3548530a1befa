//! An index over a list of unions: from each name that a union mentions
//! (its own, a variant's, a field's) and from each field type, to the
//! positions of the unions in the list.
use vstd::prelude::*;
use crate::index::{table_entries, table_get, table_insert, table_new, TypeTable};
use crate::model::{opt_view, EnumDef, Fields, Loc, Variant};
use crate::structmap::table_has;

verus! {

/// Some field of `fs` is named `n`.
pub open spec fn fields_name(fs: Fields, n: Seq<char>) -> bool {
    exists|j: int| 0 <= j < fs.items().len() && #[trigger] opt_view(fs.items()[j].name) == Some(n)
}

/// Some field of `fs` has type `t`.
pub open spec fn fields_type(fs: Fields, t: Seq<char>) -> bool {
    exists|j: int| 0 <= j < fs.items().len() && #[trigger] opt_view(fs.items()[j].ty) == Some(t)
}

/// The variant is named `n`, or one of its fields is.
pub open spec fn variant_names(v: Variant, n: Seq<char>) -> bool {
    opt_view(v.name) == Some(n) || fields_name(v.fields, n)
}

/// The union, one of its variants or one of their fields is named `n`.
pub open spec fn enum_names(e: EnumDef, n: Seq<char>) -> bool {
    opt_view(e.name) == Some(n) || exists|x: int| 0 <= x < e.variants@.len() && #[trigger] variant_names(e.variants@[x], n)
}

/// A field of some variant of the union has type `t`.
pub open spec fn enum_types(e: EnumDef, t: Seq<char>) -> bool {
    exists|x: int| 0 <= x < e.variants@.len() && #[trigger] fields_type(e.variants@[x].fields, t)
}

/// Every key of the table lists at least one position.
pub open spec fn no_empty_entry(m: Map<Seq<char>, Seq<usize>>) -> bool {
    forall|t: Seq<char>| #[trigger] m.contains_key(t) ==> m[t].len() > 0
}

/// Lists position `p` under `key`, unless it is already the last listed.
fn add_position(m: &mut TypeTable, key: &String, p: usize)
    requires
        forall|t: Seq<char>, i: usize| #[trigger] table_has(table_entries(*old(m)), t, i) ==> i <= p,
        no_empty_entry(table_entries(*old(m))),
    ensures
        no_empty_entry(table_entries(*final(m))),
        forall|t: Seq<char>, i: usize| #[trigger] table_has(table_entries(*final(m)), t, i) <==> (
            table_has(table_entries(*old(m)), t, i) || (t == key@ && i == p)),
{
    let ghost before = table_entries(*m);
    let mut v: Vec<usize> = match table_get(m, key.as_str()) {
        Some(v) => {
            let mut out: Vec<usize> = Vec::new();
            let mut k: usize = 0;
            while k < v.len()
                invariant
                    k <= v@.len(),
                    out@ == v@.take(k as int),
                decreases v.len() - k,
            {
                out.push(v[k]);
                k += 1;
                assert(out@ =~= v@.take(k as int));
            }
            assert(v@.take(k as int) =~= v@);
            out
        },
        None => Vec::new(),
    };
    if v.len() > 0 && v[v.len() - 1] == p {
        assert(table_has(before, key@, p));
        return;
    }
    v.push(p);
    table_insert(m, key.clone(), v);
    proof {
        assert forall|t: Seq<char>| #[trigger] table_entries(*m).contains_key(t) implies table_entries(*m)[t].len() > 0 by {
            if t != key@ {
                assert(before.contains_key(t));
            }
        }
        assert forall|t: Seq<char>, i: usize| #[trigger] table_has(table_entries(*m), t, i) <==> (
            table_has(before, t, i) || (t == key@ && i == p)) by {
            if t == key@ {
                if i == p {
                    assert(table_entries(*m)[t].last() == p);
                }
                if table_has(before, t, i) {
                    let k = choose|k: int| 0 <= k < before[t].len() && before[t][k] == i;
                    assert(table_entries(*m)[t][k] == i);
                }
            }
        }
    }
}

/// The union index.
pub struct EnumMap {
    pub name_map: TypeTable,
    pub type_map: TypeTable,
}

impl EnumMap {
    /// Lists position `i` under every name and type that `fs` holds.
    fn add_fields(&mut self, fs: &Fields, i: usize)
        requires
            forall|t: Seq<char>, k: usize| #[trigger] table_has(table_entries(old(self).name_map), t, k) ==> k <= i,
            forall|t: Seq<char>, k: usize| #[trigger] table_has(table_entries(old(self).type_map), t, k) ==> k <= i,
            no_empty_entry(table_entries(old(self).name_map)),
            no_empty_entry(table_entries(old(self).type_map)),
        ensures
            no_empty_entry(table_entries(final(self).name_map)),
            no_empty_entry(table_entries(final(self).type_map)),
            forall|t: Seq<char>, k: usize| #[trigger] table_has(table_entries(final(self).name_map), t, k) <==> (
                table_has(table_entries(old(self).name_map), t, k) || (k == i && fields_name(*fs, t))),
            forall|t: Seq<char>, k: usize| #[trigger] table_has(table_entries(final(self).type_map), t, k) <==> (
                table_has(table_entries(old(self).type_map), t, k) || (k == i && fields_type(*fs, t))),
    {
        let ghost n0 = table_entries(self.name_map);
        let ghost t0 = table_entries(self.type_map);
        let len = fs.len();
        let mut j: usize = 0;
        while j < len
            invariant
                len == fs.items().len(),
                j <= len,
                forall|t: Seq<char>, k: usize| #[trigger] table_has(table_entries(self.name_map), t, k) <==> (
                    table_has(n0, t, k) || (k == i && exists|x: int| 0 <= x < j && #[trigger] opt_view(fs.items()[x].name) == Some(t))),
                forall|t: Seq<char>, k: usize| #[trigger] table_has(table_entries(self.type_map), t, k) <==> (
                    table_has(t0, t, k) || (k == i && exists|x: int| 0 <= x < j && #[trigger] opt_view(fs.items()[x].ty) == Some(t))),
                forall|t: Seq<char>, k: usize| #[trigger] table_has(n0, t, k) ==> k <= i,
                forall|t: Seq<char>, k: usize| #[trigger] table_has(t0, t, k) ==> k <= i,
                no_empty_entry(table_entries(self.name_map)),
                no_empty_entry(table_entries(self.type_map)),
            decreases len - j,
        {
            let f = fs.get(j);
            let ghost nb = table_entries(self.name_map);
            let ghost tb = table_entries(self.type_map);
            match &f.name {
                Some(n) => add_position(&mut self.name_map, n, i),
                None => {},
            }
            match &f.ty {
                Some(t) => add_position(&mut self.type_map, t, i),
                None => {},
            }
            proof {
                assert forall|t: Seq<char>, k: usize| #[trigger] table_has(table_entries(self.name_map), t, k) <==> (
                    table_has(n0, t, k) || (k == i && exists|x: int| 0 <= x < j + 1 && #[trigger] opt_view(fs.items()[x].name) == Some(t))) by {
                    if k == i && exists|x: int| 0 <= x < j + 1 && #[trigger] opt_view(fs.items()[x].name) == Some(t) {
                        let x = choose|x: int| 0 <= x < j + 1 && #[trigger] opt_view(fs.items()[x].name) == Some(t);
                        if x < j {
                            assert(exists|x2: int| 0 <= x2 < j && #[trigger] opt_view(fs.items()[x2].name) == Some(t));
                            assert(table_has(nb, t, k));
                        }
                    }
                    if table_has(table_entries(self.name_map), t, k) && !table_has(nb, t, k) {
                        assert(opt_view(fs.items()[j as int].name) == Some(t));
                    }
                }
                assert forall|t: Seq<char>, k: usize| #[trigger] table_has(table_entries(self.type_map), t, k) <==> (
                    table_has(t0, t, k) || (k == i && exists|x: int| 0 <= x < j + 1 && #[trigger] opt_view(fs.items()[x].ty) == Some(t))) by {
                    if k == i && exists|x: int| 0 <= x < j + 1 && #[trigger] opt_view(fs.items()[x].ty) == Some(t) {
                        let x = choose|x: int| 0 <= x < j + 1 && #[trigger] opt_view(fs.items()[x].ty) == Some(t);
                        if x < j {
                            assert(exists|x2: int| 0 <= x2 < j && #[trigger] opt_view(fs.items()[x2].ty) == Some(t));
                            assert(table_has(tb, t, k));
                        }
                    }
                    if table_has(table_entries(self.type_map), t, k) && !table_has(tb, t, k) {
                        assert(opt_view(fs.items()[j as int].ty) == Some(t));
                    }
                }
            }
            j += 1;
        }
    }
}

/// One of the first `x` variants of `e` mentions the name `t`.
pub open spec fn variant_names_upto(e: EnumDef, x: int, t: Seq<char>) -> bool {
    exists|y: int| 0 <= y < x && #[trigger] variant_names(e.variants@[y], t)
}

/// One of the first `x` variants of `e` has a field of type `t`.
pub open spec fn variant_types_upto(e: EnumDef, x: int, t: Seq<char>) -> bool {
    exists|y: int| 0 <= y < x && #[trigger] fields_type(e.variants@[y].fields, t)
}

/// Position `k` is listed under `t` for the first `i` unions of `enums`.
pub open spec fn names_upto(enums: Seq<(Loc, EnumDef)>, i: int, t: Seq<char>, k: int) -> bool {
    0 <= k < i && enum_names(enums[k].1, t)
}

pub open spec fn types_upto(enums: Seq<(Loc, EnumDef)>, i: int, t: Seq<char>, k: int) -> bool {
    0 <= k < i && enum_types(enums[k].1, t)
}

impl EnumMap {
    /// Indexes the unions of `enums` by position.
    pub fn new(enums: &Vec<(Loc, EnumDef)>) -> (r: EnumMap)
        ensures
            forall|t: Seq<char>, k: usize| #[trigger] table_has(table_entries(r.name_map), t, k) <==> (k
                < enums@.len() && enum_names(enums@[k as int].1, t)),
            forall|t: Seq<char>, k: usize| #[trigger] table_has(table_entries(r.type_map), t, k) <==> (k
                < enums@.len() && enum_types(enums@[k as int].1, t)),
            no_empty_entry(table_entries(r.name_map)),
            no_empty_entry(table_entries(r.type_map)),
    {
        let mut m = EnumMap { name_map: table_new(), type_map: table_new() };
        let mut i: usize = 0;
        while i < enums.len()
            invariant
                i <= enums@.len(),
                forall|t: Seq<char>, k: usize| #[trigger] table_has(table_entries(m.name_map), t, k) <==> names_upto(enums@, i as int, t, k as int),
                forall|t: Seq<char>, k: usize| #[trigger] table_has(table_entries(m.type_map), t, k) <==> types_upto(enums@, i as int, t, k as int),
                no_empty_entry(table_entries(m.name_map)),
                no_empty_entry(table_entries(m.type_map)),
            decreases enums@.len() - i,
        {
            let e = &enums[i].1;
            let ghost n0 = table_entries(m.name_map);
            let ghost t0 = table_entries(m.type_map);
            match &e.name {
                Some(n) => add_position(&mut m.name_map, n, i),
                None => {},
            }
            let nv = e.variants.len();
            let mut x: usize = 0;
            while x < nv
                invariant
                    i < enums@.len(),
                    *e == enums@[i as int].1,
                    nv == e.variants@.len(),
                    x <= nv,
                    forall|t: Seq<char>, k: usize| #[trigger] table_has(n0, t, k) ==> k < i,
                    forall|t: Seq<char>, k: usize| #[trigger] table_has(t0, t, k) ==> k < i,
                    forall|t: Seq<char>, k: usize| #[trigger] table_has(table_entries(m.name_map), t, k) <==> (
                        table_has(n0, t, k) || (k == i && (opt_view(e.name) == Some(t) || variant_names_upto(*e, x as int, t)))),
                    forall|t: Seq<char>, k: usize| #[trigger] table_has(table_entries(m.type_map), t, k) <==> (
                        table_has(t0, t, k) || (k == i && variant_types_upto(*e, x as int, t))),
                    no_empty_entry(table_entries(m.name_map)),
                    no_empty_entry(table_entries(m.type_map)),
                decreases nv - x,
            {
                let v = &e.variants[x];
                let ghost nb = table_entries(m.name_map);
                let ghost tb = table_entries(m.type_map);
                match &v.name {
                    Some(n) => add_position(&mut m.name_map, n, i),
                    None => {},
                }
                let ghost nc = table_entries(m.name_map);
                m.add_fields(&v.fields, i);
                proof {
                    assert forall|t: Seq<char>, k: usize| #[trigger] table_has(table_entries(m.name_map), t, k) <==> (
                        table_has(n0, t, k) || (k == i && (opt_view(e.name) == Some(t) || variant_names_upto(*e, x + 1, t)))) by {
                        if variant_names_upto(*e, x + 1, t) {
                            let y = choose|y: int| 0 <= y < x + 1 && #[trigger] variant_names(e.variants@[y], t);
                            if y < x {
                                assert(variant_names_upto(*e, x as int, t));
                            }
                        }
                        if variant_names(*v, t) {
                            assert(variant_names(e.variants@[x as int], t));
                        }
                        if variant_names_upto(*e, x as int, t) {
                            let y = choose|y: int| 0 <= y < x && #[trigger] variant_names(e.variants@[y], t);
                            assert(variant_names(e.variants@[y], t));
                        }
                    }
                    assert forall|t: Seq<char>, k: usize| #[trigger] table_has(table_entries(m.type_map), t, k) <==> (
                        table_has(t0, t, k) || (k == i && variant_types_upto(*e, x + 1, t))) by {
                        if variant_types_upto(*e, x + 1, t) {
                            let y = choose|y: int| 0 <= y < x + 1 && #[trigger] fields_type(e.variants@[y].fields, t);
                            if y < x {
                                assert(variant_types_upto(*e, x as int, t));
                            }
                        }
                        if fields_type(v.fields, t) {
                            assert(fields_type(e.variants@[x as int].fields, t));
                        }
                        if variant_types_upto(*e, x as int, t) {
                            let y = choose|y: int| 0 <= y < x && #[trigger] fields_type(e.variants@[y].fields, t);
                            assert(fields_type(e.variants@[y].fields, t));
                        }
                    }
                }
                x += 1;
            }
            proof {
                assert forall|t: Seq<char>, k: usize| #[trigger] table_has(table_entries(m.name_map), t, k) <==> names_upto(enums@, i + 1, t, k as int) by {
                    if k == i {
                        if enum_names(*e, t) && opt_view(e.name) != Some(t) {
                            let y = choose|y: int| 0 <= y < e.variants@.len() && #[trigger] variant_names(e.variants@[y], t);
                            assert(variant_names_upto(*e, nv as int, t));
                        }
                        if variant_names_upto(*e, nv as int, t) {
                            let y = choose|y: int| 0 <= y < nv && #[trigger] variant_names(e.variants@[y], t);
                            assert(variant_names(e.variants@[y], t));
                        }
                    }
                }
                assert forall|t: Seq<char>, k: usize| #[trigger] table_has(table_entries(m.type_map), t, k) <==> types_upto(enums@, i + 1, t, k as int) by {
                    if k == i {
                        if enum_types(*e, t) {
                            let y = choose|y: int| 0 <= y < e.variants@.len() && #[trigger] fields_type(e.variants@[y].fields, t);
                            assert(variant_types_upto(*e, nv as int, t));
                        }
                        if variant_types_upto(*e, nv as int, t) {
                            let y = choose|y: int| 0 <= y < nv && #[trigger] fields_type(e.variants@[y].fields, t);
                            assert(fields_type(e.variants@[y].fields, t));
                        }
                    }
                }
            }
            i += 1;
        }
        m
    }
}

} // verus!
