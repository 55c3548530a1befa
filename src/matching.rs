//! Field-level criteria shared by record and union matching, and the
//! matching of tagged unions.
use vstd::prelude::*;
use crate::model::{opt_view, EnumDef, Field, Fields, FieldsKind, Loc, Variant};

verus! {

/// The view of a field: its name and its type.
pub type FieldView = (Option<Seq<char>>, Option<Seq<char>>);

/// A query field's criterion holds against a target field: the query names
/// the field and the names are equal, or the query gives a type and the
/// types are equal.
pub open spec fn field_matches(q: FieldView, f: FieldView) -> bool {
    (q.0 is Some && f.0 == q.0) || (q.1 is Some && f.1 == q.1)
}

/// Some query field's criterion holds against some target field.
pub open spec fn some_field_matches(qs: Seq<Field>, fs: Seq<Field>) -> bool {
    exists|i: int, j: int|
        0 <= i < qs.len() && 0 <= j < fs.len() && #[trigger] field_matches(qs[i]@, fs[j]@)
}

/// Fields of a query variant match those of a target variant: the layouts
/// agree, and either both are unit or some field criterion holds.
pub open spec fn fields_match(q: Fields, t: Fields) -> bool {
    q.spec_kind() == t.spec_kind() && (q.spec_kind() == FieldsKind::Unit || some_field_matches(
        q.items(),
        t.items(),
    ))
}

/// Both names are present and equal.
pub open spec fn names_equal(q: Option<String>, t: Option<String>) -> bool {
    q is Some && opt_view(t) == opt_view(q)
}

/// A query variant matches a target variant by name, or else by fields.
pub open spec fn variant_matches(q: Variant, v: Variant) -> bool {
    names_equal(q.name, v.name) || fields_match(q.fields, v.fields)
}

/// A query union matches a target union: by the union's name, or else some
/// query variant matches some target variant.
pub open spec fn enum_matches(q: EnumDef, e: EnumDef) -> bool {
    names_equal(q.name, e.name) || exists|i: int, j: int|
        0 <= i < q.variants@.len() && 0 <= j < e.variants@.len() && #[trigger] variant_matches(
            q.variants@[i],
            e.variants@[j],
        )
}

/// A query union with a variant named like some variant of a target union
/// matches that union, whatever the fields of either variant.
pub proof fn lemma_variant_name_matches(q: EnumDef, e: EnumDef, i: int, j: int)
    requires
        0 <= i < q.variants@.len(),
        0 <= j < e.variants@.len(),
        q.variants@[i].name is Some,
        opt_view(e.variants@[j].name) == opt_view(q.variants@[i].name),
    ensures
        enum_matches(q, e),
{
    assert(variant_matches(q.variants@[i], e.variants@[j]));
}

/// The locations of the unions in `defs` that `q` matches, in order.
pub open spec fn matching_enums(q: EnumDef, defs: Seq<(Loc, EnumDef)>) -> Seq<
    (Seq<char>, usize, usize),
>
    decreases defs.len(),
{
    if defs.len() == 0 {
        Seq::empty()
    } else {
        let prev = matching_enums(q, defs.drop_last());
        if enum_matches(q, defs.last().1) {
            prev.push(defs.last().0@)
        } else {
            prev
        }
    }
}

/// The views of a sequence of locations.
pub open spec fn locs_view(ls: Seq<Loc>) -> Seq<(Seq<char>, usize, usize)> {
    ls.map_values(|l: Loc| l@)
}

fn opt_eq(a: &Option<String>, b: &Option<String>) -> (r: bool)
    ensures
        r == (a is Some && opt_view(*b) == opt_view(*a)),
{
    match (a, b) {
        (Some(x), Some(y)) => *x == *y,
        _ => false,
    }
}

pub fn matches_field(query: &Field, field: &Field) -> (r: bool)
    ensures
        r == field_matches(query@, field@),
{
    if opt_eq(&query.name, &field.name) {
        return true;
    }
    opt_eq(&query.ty, &field.ty)
}

pub fn any_field_matches(qs: &Vec<Field>, fs: &Vec<Field>) -> (r: bool)
    ensures
        r == some_field_matches(qs@, fs@),
{
    let mut i: usize = 0;
    while i < qs.len()
        invariant
            i <= qs@.len(),
            forall|a: int, b: int|
                0 <= a < i && 0 <= b < fs@.len() ==> !#[trigger] field_matches(qs@[a]@, fs@[b]@),
        decreases qs.len() - i,
    {
        let mut j: usize = 0;
        while j < fs.len()
            invariant
                i < qs@.len(),
                j <= fs@.len(),
                forall|a: int, b: int|
                    0 <= a < i && 0 <= b < fs@.len() ==> !#[trigger] field_matches(
                        qs@[a]@,
                        fs@[b]@,
                    ),
                forall|b: int| 0 <= b < j ==> !#[trigger] field_matches(qs@[i as int]@, fs@[b]@),
            decreases fs.len() - j,
        {
            if matches_field(&qs[i], &fs[j]) {
                assert(field_matches(qs@[i as int]@, fs@[j as int]@));
                return true;
            }
            j += 1;
        }
        i += 1;
    }
    false
}

pub fn matches_fields(query: &Fields, fields: &Fields) -> (r: bool)
    ensures
        r == fields_match(*query, *fields),
{
    match (query, fields) {
        (Fields::Unit, Fields::Unit) => true,
        (Fields::Named(qs), Fields::Named(fs)) => any_field_matches(qs, fs),
        (Fields::Unnamed(qs), Fields::Unnamed(fs)) => any_field_matches(qs, fs),
        _ => false,
    }
}

impl EnumDef {
    /// Whether the query variant matches the target variant.
    pub fn matches_variant(query: &Variant, variant: &Variant) -> (r: bool)
        ensures
            r == variant_matches(*query, *variant),
    {
        if opt_eq(&query.name, &variant.name) {
            return true;
        }
        matches_fields(&query.fields, &variant.fields)
    }

    /// Whether the query union matches the target union; the first
    /// criterion that holds decides.
    pub fn matches_enum_def(query: &EnumDef, enum_def: &EnumDef) -> (r: bool)
        ensures
            r == enum_matches(*query, *enum_def),
    {
        if opt_eq(&query.name, &enum_def.name) {
            return true;
        }
        let mut i: usize = 0;
        while i < query.variants.len()
            invariant
                i <= query.variants@.len(),
                forall|a: int, b: int|
                    0 <= a < i && 0 <= b < enum_def.variants@.len() ==> !#[trigger] variant_matches(
                        query.variants@[a],
                        enum_def.variants@[b],
                    ),
            decreases query.variants.len() - i,
        {
            let mut j: usize = 0;
            while j < enum_def.variants.len()
                invariant
                    i < query.variants@.len(),
                    j <= enum_def.variants@.len(),
                    forall|a: int, b: int|
                        0 <= a < i && 0 <= b < enum_def.variants@.len() ==> !#[trigger] variant_matches(
                            query.variants@[a],
                            enum_def.variants@[b],
                        ),
                    forall|b: int|
                        0 <= b < j ==> !#[trigger] variant_matches(query.variants@[i as int], enum_def.variants@[b]),
                decreases enum_def.variants.len() - j,
            {
                if Self::matches_variant(&query.variants[i], &enum_def.variants[j]) {
                    assert(variant_matches(query.variants@[i as int], enum_def.variants@[j as int]));
                    return true;
                }
                j += 1;
            }
            i += 1;
        }
        false
    }

    /// The locations of the unions in `enums` that `query` matches, in the
    /// order of `enums`.
    pub fn search_enum_def(query: &EnumDef, enums: &Vec<(Loc, EnumDef)>) -> (r: Vec<Loc>)
        ensures
            locs_view(r@) == matching_enums(*query, enums@),
    {
        let mut out: Vec<Loc> = Vec::new();
        let mut i: usize = 0;
        while i < enums.len()
            invariant
                i <= enums@.len(),
                locs_view(out@) == matching_enums(*query, enums@.take(i as int)),
            decreases enums.len() - i,
        {
            assert(enums@.take(i + 1).drop_last() =~= enums@.take(i as int));
            if Self::matches_enum_def(query, &enums[i].1) {
                out.push(enums[i].0.duplicate());
                assert(locs_view(out@) =~= locs_view(out@.drop_last()).push(out@.last()@));
            }
            i += 1;
        }
        assert(enums@.take(i as int) =~= enums@);
        out
    }
}

} // verus!
