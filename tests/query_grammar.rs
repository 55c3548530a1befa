use shapegrep::model::{FieldsKind, Item, ReturnType};
use shapegrep::query::{parse_optionaly_named_field, parse_query, QueryError};
use shapegrep::text::normalize;

fn parse_fn(text: &str) -> shapegrep::model::FnSignature {
    match parse_query(text) {
        Ok(Item::FnSignature(f)) => f,
        other => panic!("not a function query: {:?}", other),
    }
}

#[test]
fn normalize_ignores_case() {
    assert_eq!(normalize("Foo"), "foo");
    assert_eq!(normalize("FOO"), "foo");
    assert_eq!(normalize("foo"), "foo");
}

#[test]
fn normalize_twice_is_normalize_once() {
    for s in ["Vec < u8 >", "&'a   str", "  dyn  Foo ", "HashMap<K,\tV>", "(i32 , i32)"] {
        let once = normalize(s);
        assert_eq!(normalize(&once), once);
    }
}

#[test]
fn normalize_collapses_whitespace() {
    assert_eq!(normalize("Vec < u8 >"), "vec<u8>");
    assert_eq!(normalize("& 'a str"), "&'a str");
    assert_eq!(normalize("  dyn   Foo  "), "dyn foo");
    assert_eq!(normalize("[u8 ; 4]"), "[u8;4]");
    assert_eq!(normalize(""), "");
}

#[test]
fn function_equivalence_ignores_names_and_case() {
    let a = parse_fn("fn(a: i32) -> bool");
    let b = parse_fn("fn(b: I32) -> BOOL");
    assert!(a == b);
    assert!(b == a);
    assert!(a == a);
}

#[test]
fn unit_return_is_no_return() {
    let a = parse_fn("fn() -> ()");
    let b = parse_fn("fn()");
    assert!(a == b);
    assert!(matches!(a.output, ReturnType::Default));
}

#[test]
fn parameter_count_matters() {
    let a = parse_fn("fn(i32)");
    let b = parse_fn("fn(i32, i32)");
    assert!(!(a == b));
}

#[test]
fn function_query_parts() {
    let f = parse_fn("fn Add(x: i32, y: Vec<u8>,) -> Option<i32>");
    assert_eq!(f.name.as_deref(), Some("add"));
    assert_eq!(f.inputs.len(), 2);
    assert_eq!(f.inputs[0].name.as_deref(), Some("x"));
    assert_eq!(f.inputs[0].ty, "i32");
    assert_eq!(f.inputs[1].ty, "vec<u8>");
    match &f.output {
        ReturnType::Type(t) => assert_eq!(t, "option<i32>"),
        ReturnType::Default => panic!("expected a return type"),
    }
}

#[test]
fn receiver_is_dropped() {
    let f = parse_fn("fn get(&mut self, key: &str) -> usize");
    assert_eq!(f.inputs.len(), 1);
    assert_eq!(f.inputs[0].ty, "&str");
    let g = parse_fn("fn get(self: Box<Self>)");
    assert_eq!(g.inputs.len(), 0);
}

#[test]
fn path_type_is_not_a_name() {
    let f = parse_fn("fn(std::string::String)");
    assert_eq!(f.inputs.len(), 1);
    assert_eq!(f.inputs[0].name, None);
    assert_eq!(f.inputs[0].ty, "std::string::string");
}

#[test]
fn fn_pointer_type_keeps_its_arrow() {
    let f = parse_fn("fn(cb: Box<dyn Fn(i32) -> i32>, n: u8)");
    assert_eq!(f.inputs.len(), 2);
    assert_eq!(f.inputs[0].ty, "box<dyn fn(i32)->i32>");
}

#[test]
fn record_queries() {
    match parse_query("struct { count: , x: u64 }") {
        Ok(Item::StructDef(d)) => {
            assert!(!d.is_tup);
            assert_eq!(d.fields.kind(), FieldsKind::Named);
            assert_eq!(d.fields.len(), 2);
            assert_eq!(d.fields.get(0).name.as_deref(), Some("count"));
            assert_eq!(d.fields.get(0).ty, None);
            assert_eq!(d.fields.get(1).ty.as_deref(), Some("u64"));
        }
        other => panic!("{:?}", other),
    }
    match parse_query("struct Point(i32, i32)") {
        Ok(Item::StructDef(d)) => {
            assert!(d.is_tup);
            assert_eq!(d.name.as_deref(), Some("point"));
            assert_eq!(d.fields.kind(), FieldsKind::Unnamed);
            assert_eq!(d.fields.len(), 2);
        }
        other => panic!("{:?}", other),
    }
    match parse_query("struct Marker;") {
        Ok(Item::StructDef(d)) => assert_eq!(d.fields.kind(), FieldsKind::Unit),
        other => panic!("{:?}", other),
    }
}

#[test]
fn union_queries() {
    match parse_query("enum Q { V, W(u8), X { a: u32 }, }") {
        Ok(Item::EnumDef(e)) => {
            assert_eq!(e.name.as_deref(), Some("q"));
            assert_eq!(e.variants.len(), 3);
            assert_eq!(e.variants[0].name.as_deref(), Some("v"));
            assert_eq!(e.variants[0].fields.kind(), FieldsKind::Unit);
            assert_eq!(e.variants[1].fields.kind(), FieldsKind::Unnamed);
            assert_eq!(e.variants[2].fields.kind(), FieldsKind::Named);
        }
        other => panic!("{:?}", other),
    }
}

#[test]
fn unknown_kind_is_refused() {
    assert_eq!(parse_query("trait Foo {}").unwrap_err(), QueryError::UnknownKind);
    assert_eq!(parse_query("").unwrap_err(), QueryError::UnknownKind);
}

#[test]
fn malformed_queries_are_refused() {
    assert_eq!(parse_query("fn(").unwrap_err(), QueryError::Malformed);
    assert_eq!(parse_query("fn(i32) -> ").unwrap_err(), QueryError::Malformed);
    assert_eq!(parse_query("fn(i32) junk").unwrap_err(), QueryError::Malformed);
    assert_eq!(parse_query("struct { a: u64").unwrap_err(), QueryError::Malformed);
    assert_eq!(parse_query("struct S").unwrap_err(), QueryError::Malformed);
    assert_eq!(parse_query("enum E ( A )").unwrap_err(), QueryError::Malformed);
    assert!(!QueryError::Malformed.message().is_empty());
}

#[test]
fn optionally_named_field() {
    let cs: Vec<char> = "{ Count: U64, x }".chars().collect();
    let (f, end) = parse_optionaly_named_field(&cs, 1).unwrap();
    assert_eq!(f.name.as_deref(), Some("count"));
    assert_eq!(f.ty.as_deref(), Some("u64"));
    assert_eq!(cs[end], ',');
    let (g, _) = parse_optionaly_named_field(&cs, end + 1).unwrap();
    assert_eq!(g.name, None);
    assert_eq!(g.ty.as_deref(), Some("x"));
}

#[test]
fn normalize_folds_non_ascii_letters() {
    assert_eq!(normalize("Éa"), "éa");
    assert_eq!(normalize("ÉA"), normalize("éa"));
    let once = normalize("Straße  <  Ä >");
    assert_eq!(normalize(&once), once);
}

#[test]
fn non_ascii_names_are_lower_cased_in_queries() {
    match parse_query("struct Éa;") {
        Ok(Item::StructDef(d)) => assert_eq!(d.name.as_deref(), Some("éa")),
        other => panic!("{:?}", other),
    }
    let f = parse_fn("fn Éx(Ü: Öl)");
    assert_eq!(f.name.as_deref(), Some("éx"));
    assert_eq!(f.inputs[0].name.as_deref(), Some("ü"));
    assert_eq!(f.inputs[0].ty, "öl");
}

#[test]
fn text_that_is_not_a_type_is_refused() {
    assert_eq!(parse_query("struct S (a: u64)").unwrap_err(), QueryError::Malformed);
    assert_eq!(parse_query("struct S { a: u64 b: u8 }").unwrap_err(), QueryError::Malformed);
    assert_eq!(parse_query("fn(a: u64 b: u8)").unwrap_err(), QueryError::Malformed);
    assert_eq!(parse_query("fn(a:)").unwrap_err(), QueryError::Malformed);
    assert_eq!(parse_query("enum Q { V(,) }").unwrap_err(), QueryError::Malformed);
}

#[test]
fn identifier_does_not_start_with_a_digit() {
    assert_eq!(parse_query("enum Q { 1 }").unwrap_err(), QueryError::Malformed);
    assert!(parse_query("enum Q { V1 }").is_ok());
}

#[test]
fn empty_field_lists_are_unit() {
    match parse_query("struct S {}") {
        Ok(Item::StructDef(d)) => {
            assert_eq!(d.fields.kind(), FieldsKind::Unit);
            assert!(!d.is_tup);
        }
        other => panic!("{:?}", other),
    }
    match parse_query("enum E { A(), B {} }") {
        Ok(Item::EnumDef(e)) => {
            assert_eq!(e.variants[0].fields.kind(), FieldsKind::Unit);
            assert_eq!(e.variants[1].fields.kind(), FieldsKind::Unit);
        }
        other => panic!("{:?}", other),
    }
}

#[test]
fn unit_return_spelled_out_equals_no_return() {
    let a = shapegrep::model::FnSignature {
        name: None,
        inputs: vec![],
        output: ReturnType::Type("()".to_string()),
    };
    let b = parse_fn("fn()");
    assert!(a == b);
}
