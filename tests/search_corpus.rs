use shapegrep::enummap::EnumMap;
use shapegrep::model::{
    EnumDef, Field, Fields, FieldsKind, FnArg, FnSignature, Item, Loc, StructDef, Variant,
};
use shapegrep::query::parse_query;
use shapegrep::search::{search, search_file, FileIndex};
use shapegrep::structmap::StructDefMap;

fn loc(file: &str, line: usize, column: usize) -> Loc {
    Loc::new(file, line, column)
}

fn sig(name: &str, params: &[(&str, &str)], ret: Option<&str>) -> Item {
    let inputs = params.iter().map(|(n, t)| FnArg::new(Some(n), t)).collect();
    Item::FnSignature(FnSignature::new(Some(name), inputs, ret))
}

fn named(fields: &[(&str, &str)]) -> Fields {
    Fields::new(
        FieldsKind::Named,
        fields.iter().map(|(n, t)| Field::new(Some(n), Some(t))).collect(),
    )
}

fn unnamed(types: &[&str]) -> Fields {
    Fields::new(FieldsKind::Unnamed, types.iter().map(|t| Field::new(None, Some(t))).collect())
}

fn query(text: &str) -> Item {
    parse_query(text).unwrap()
}

fn spots(r: &[Loc]) -> Vec<(String, usize, usize)> {
    r.iter().map(|l| (l.file.clone(), l.line, l.column)).collect()
}

#[test]
fn later_duplicate_shape_wins_per_file() {
    let file = FileIndex::build(vec![
        (loc("a.rs", 1, 0), sig("first", &[("x", "u8")], Some("bool"))),
        (loc("a.rs", 5, 0), sig("second", &[("y", "U8")], Some("bool"))),
    ]);
    let r = search(&vec![file], &query("fn(u8) -> bool"));
    assert_eq!(spots(&r), vec![("a.rs".to_string(), 5, 0)]);
}

#[test]
fn duplicates_in_one_file_do_not_hide_another_file() {
    let f1 = FileIndex::build(vec![
        (loc("a.rs", 1, 0), sig("f", &[], None)),
        (loc("a.rs", 2, 0), sig("g", &[], Some("()"))),
    ]);
    let f2 = FileIndex::build(vec![(loc("b.rs", 3, 4), sig("h", &[], None))]);
    let r = search(&vec![f1, f2], &query("fn()"));
    assert_eq!(
        spots(&r),
        vec![("a.rs".to_string(), 2, 0), ("b.rs".to_string(), 3, 4)]
    );
}

#[test]
fn scenario_functions_across_files() {
    let f1 = FileIndex::build(vec![(
        loc("file1.rs", 1, 0),
        sig("add", &[("x", "i32"), ("y", "i32")], Some("i32")),
    )]);
    let f2 = FileIndex::build(vec![(
        loc("file2.rs", 7, 0),
        sig("sum", &[("a", "i32"), ("b", "i32")], Some("i32")),
    )]);
    let r = search(&vec![f1, f2], &query("fn(i32, i32) -> i32"));
    assert_eq!(
        spots(&r),
        vec![("file1.rs".to_string(), 1, 0), ("file2.rs".to_string(), 7, 0)]
    );
}

#[test]
fn scenario_tuple_query_finds_only_tuple_record() {
    let f = FileIndex::build(vec![
        (loc("s.rs", 1, 0), Item::StructDef(StructDef::new(Some("Point"), unnamed(&["i32", "i32"])))),
        (
            loc("s.rs", 2, 0),
            Item::StructDef(StructDef::new(Some("Pair"), named(&[("x", "i32"), ("y", "i32")]))),
        ),
    ]);
    let r = search(&vec![f], &query("struct(i32)"));
    assert_eq!(spots(&r), vec![("s.rs".to_string(), 1, 0)]);
}

fn record_file() -> FileIndex {
    FileIndex::build(vec![(
        loc("r.rs", 3, 0),
        Item::StructDef(StructDef::new(Some("R"), named(&[("a", "u64"), ("b", "String")]))),
    )])
}

#[test]
fn record_matches_by_type() {
    let r = search(&vec![record_file()], &query("struct { x: u64 }"));
    assert_eq!(spots(&r), vec![("r.rs".to_string(), 3, 0)]);
}

#[test]
fn record_matches_by_name() {
    let r = search(&vec![record_file()], &query("struct { a: bool }"));
    assert_eq!(spots(&r), vec![("r.rs".to_string(), 3, 0)]);
}

#[test]
fn record_found_once_when_several_criteria_hold() {
    let r = search(&vec![record_file()], &query("struct { a: u64, b: String }"));
    assert_eq!(r.len(), 1);
}

#[test]
fn record_without_any_criterion_is_not_found() {
    let r = search(&vec![record_file()], &query("struct { z: bool }"));
    assert!(r.is_empty());
}

#[test]
fn tuple_query_never_matches_named_record() {
    let r = search(&vec![record_file()], &query("struct(u64)"));
    assert!(r.is_empty());
}

fn union_file() -> FileIndex {
    let target = EnumDef::new(
        Some("Target"),
        vec![
            Variant::new(Some("V"), unnamed(&["u32"])),
            Variant::new(Some("W"), named(&[("k", "String")])),
        ],
    );
    let other = EnumDef::new(Some("Other"), vec![Variant::new(Some("Z"), unnamed(&["u8"]))]);
    FileIndex::build(vec![
        (loc("u.rs", 1, 0), Item::EnumDef(target)),
        (loc("u.rs", 9, 0), Item::EnumDef(other)),
    ])
}

#[test]
fn union_matches_by_variant_name() {
    let r = search(&vec![union_file()], &query("enum Q { V }"));
    assert_eq!(spots(&r), vec![("u.rs".to_string(), 1, 0)]);
}

#[test]
fn union_matches_by_own_name_and_by_fields() {
    let r = search(&vec![union_file()], &query("enum Other { A }"));
    assert_eq!(spots(&r), vec![("u.rs".to_string(), 9, 0)]);
    let r = search(&vec![union_file()], &query("enum { A { k: bool } }"));
    assert_eq!(spots(&r), vec![("u.rs".to_string(), 1, 0)]);
    let r = search(&vec![union_file()], &query("enum { A(u8) }"));
    assert_eq!(spots(&r), vec![("u.rs".to_string(), 9, 0)]);
    let r = search(&vec![union_file()], &query("enum { A { u8 } }"));
    assert!(r.is_empty());
}

#[test]
fn empty_corpus_gives_no_results() {
    let r = search(&vec![], &query("fn(i32) -> i32"));
    assert!(r.is_empty());
    let r = search(&vec![FileIndex::build(vec![])], &query("struct { a: u8 }"));
    assert!(r.is_empty());
}

#[test]
fn no_structural_match_gives_no_results() {
    let f = FileIndex::build(vec![(loc("a.rs", 1, 0), sig("f", &[("x", "i64")], None))]);
    assert!(search_file(&f, &query("fn(i32)")).is_empty());
}

#[test]
fn record_shard_lookups() {
    let mut m = StructDefMap::new(3);
    m.insert(StructDef::new(Some("A"), named(&[("zeta", "u8"), ("alpha", "Vec<u8>")])), loc("m.rs", 1, 0));
    m.insert(StructDef::new(Some("B"), unnamed(&["u8"])), loc("m.rs", 2, 0));
    m.insert(StructDef::new(Some("C"), named(&[("Alpha", "bool")])), loc("m.rs", 3, 0));
    for finalized in [false, true] {
        assert!(!m.has_name_set() || finalized);
        if finalized {
            m.finalize();
            assert!(m.has_name_set());
        }
        assert_eq!(spots(&m.find_types("u8", false)), vec![("m.rs".to_string(), 1, 0)]);
        assert_eq!(spots(&m.find_types("u8", true)), vec![("m.rs".to_string(), 2, 0)]);
        assert_eq!(spots(&m.find_types("vec<u8>", false)), vec![("m.rs".to_string(), 1, 0)]);
        assert!(m.find_types("u16", false).is_empty());
        assert_eq!(
            spots(&m.find_names("alpha", false)),
            vec![("m.rs".to_string(), 1, 0), ("m.rs".to_string(), 3, 0)]
        );
        assert_eq!(spots(&m.find_names("zeta", false)), vec![("m.rs".to_string(), 1, 0)]);
        assert!(m.find_names("beta", false).is_empty());
        assert!(m.find_names("zeta", true).is_empty());
    }
}

#[test]
fn union_index_lists_names_and_types() {
    let e1 = EnumDef::new(Some("E"), vec![Variant::new(Some("A"), named(&[("f", "u8")]))]);
    let e2 = EnumDef::new(Some("F"), vec![Variant::new(Some("B"), unnamed(&["u8"]))]);
    let enums = vec![(loc("e.rs", 1, 0), e1), (loc("e.rs", 2, 0), e2)];
    let m = EnumMap::new(&enums);
    assert_eq!(m.name_map.get("e"), Some(&vec![0]));
    assert_eq!(m.name_map.get("a"), Some(&vec![0]));
    assert_eq!(m.name_map.get("f"), Some(&vec![0, 1]));
    assert_eq!(m.name_map.get("b"), Some(&vec![1]));
    assert_eq!(m.type_map.get("u8"), Some(&vec![0, 1]));
    assert_eq!(m.type_map.get("a"), None);
}

#[test]
fn location_is_written_file_line_column() {
    assert_eq!(loc("src/x.rs", 12, 4).to_display_string(), "src/x.rs:12:4");
}

#[test]
fn fields_iterate_in_order() {
    let f = named(&[("a", "u8"), ("b", "u16")]);
    let v = f.iter();
    assert_eq!(v.len(), 2);
    assert_eq!(v[1].name.as_deref(), Some("b"));
    assert!(Fields::Unit.iter().is_empty());
}

#[test]
fn no_fields_make_the_unit_layout() {
    assert_eq!(Fields::new(FieldsKind::Named, vec![]).kind(), FieldsKind::Unit);
    assert_eq!(Fields::new(FieldsKind::Unnamed, vec![]).kind(), FieldsKind::Unit);
    let d = StructDef::new(Some("S"), Fields::new(FieldsKind::Unnamed, vec![]));
    assert!(!d.is_tup);
}

#[test]
fn name_set_is_built_by_finalize() {
    let mut m = StructDefMap::new(2);
    m.insert(StructDef::new(Some("A"), named(&[("zeta", "u8"), ("alpha", "u8")])), loc("n.rs", 1, 0));
    m.insert(StructDef::new(Some("B"), named(&[("mid", "u8"), ("alpha", "u8")])), loc("n.rs", 2, 0));
    assert!(!m.has_name_set());
    m.finalize();
    assert!(m.has_name_set());
    assert_eq!(spots(&m.find_names("mid", false)), vec![("n.rs".to_string(), 2, 0)]);
}

#[test]
fn large_positions_are_written_in_decimal() {
    assert_eq!(loc("a.rs", 1203, 0).to_display_string(), "a.rs:1203:0");
}
