use cocktails::document::{Document, Rational, Value};
use cocktails::facade::{Pipeline, QueryFacade};
use cocktails::pipeline::{PipelineError, Store};
use cocktails::stage::{Expr, Pred, Stage};

fn doc_with_name(name: &str) -> Document {
    let mut d = Document::new();
    d.set(String::from("name"), Value::Str(String::from(name)));
    d
}

fn name_of(d: &Document) -> String {
    match d.get("name") {
        Some(Value::Str(s)) => s.clone(),
        _ => panic!("document has no name"),
    }
}

fn store_of(docs: Vec<Document>) -> Store {
    let mut store = Store::new();
    store.add_collection(String::from("recipes"), docs);
    store
}

#[test]
fn typed_accessors_check_the_type_and_never_crash() {
    let mut d = doc_with_name("Addison");
    d.set(String::from("rating"), Value::Num(Rational { num: 9, den: 2 }));
    d.set(String::from("when"), Value::Ts(1234));
    d.set(String::from("tags"), Value::Arr(vec![Value::Null]));
    assert_eq!(d.get_str("name").unwrap(), "Addison");
    assert_eq!(d.get_num("rating"), Some(Rational { num: 9, den: 2 }));
    assert_eq!(d.get_ts("when"), Some(1234));
    assert_eq!(d.get_arr("tags").unwrap().len(), 1);
    // wrong type or absent: the explicit signal, never a crash
    assert_eq!(d.get_num("name"), None);
    assert_eq!(d.get_ts("missing"), None);
    assert!(d.get_str("rating").is_none());
    assert!(d.get_arr("when").is_none());
}

#[test]
fn empty_pipeline_returns_collection_unchanged() {
    let docs = vec![doc_with_name("Negroni"), doc_with_name("Addison"), doc_with_name("Mojito")];
    let facade = QueryFacade::new(store_of(docs), String::from("recipes"));
    let out = facade.aggregate(Vec::new()).unwrap();
    assert_eq!(out.len(), 3);
    assert_eq!(name_of(&out[0]), "Negroni");
    assert_eq!(name_of(&out[1]), "Addison");
    assert_eq!(name_of(&out[2]), "Mojito");
}

#[test]
fn limit_truncates_and_limit_zero_empties() {
    let docs = vec![doc_with_name("A"), doc_with_name("B"), doc_with_name("C")];
    let facade = QueryFacade::new(store_of(docs), String::from("recipes"));
    let out = facade.aggregate(vec![Stage::Limit(2)]).unwrap();
    assert_eq!(out.len(), 2);
    assert_eq!(name_of(&out[0]), "A");
    assert_eq!(name_of(&out[1]), "B");
    let none = facade.aggregate(vec![Stage::Sort { field: String::from("name"), ascending: true }, Stage::Limit(0)]).unwrap();
    assert_eq!(none.len(), 0);
    let more = facade.aggregate(vec![Stage::Limit(10)]).unwrap();
    assert_eq!(more.len(), 3);
}

#[test]
fn sort_ascending_then_descending_reverses_distinct_keys() {
    let docs = vec![doc_with_name("Boulevardier"), doc_with_name("Addison"), doc_with_name("Americano")];
    let facade = QueryFacade::new(store_of(docs), String::from("recipes"));
    let asc = facade
        .aggregate(vec![Stage::Sort { field: String::from("name"), ascending: true }])
        .unwrap();
    assert_eq!(name_of(&asc[0]), "Addison");
    assert_eq!(name_of(&asc[1]), "Americano");
    assert_eq!(name_of(&asc[2]), "Boulevardier");
    let desc = facade
        .aggregate(vec![
            Stage::Sort { field: String::from("name"), ascending: true },
            Stage::Sort { field: String::from("name"), ascending: false },
        ])
        .unwrap();
    assert_eq!(name_of(&desc[0]), "Boulevardier");
    assert_eq!(name_of(&desc[1]), "Americano");
    assert_eq!(name_of(&desc[2]), "Addison");
}

#[test]
fn sort_is_stable_for_equal_keys() {
    let mut a = doc_with_name("first");
    a.set(String::from("key"), Value::Num(Rational { num: 1, den: 1 }));
    let mut b = doc_with_name("second");
    b.set(String::from("key"), Value::Num(Rational { num: 2, den: 2 }));
    let mut c = doc_with_name("third");
    c.set(String::from("key"), Value::Num(Rational { num: 0, den: 1 }));
    let facade = QueryFacade::new(store_of(vec![a, b, c]), String::from("recipes"));
    // 1/1 and 2/2 tie by value; the tie keeps insertion order
    let out = facade
        .aggregate(vec![Stage::Sort { field: String::from("key"), ascending: true }])
        .unwrap();
    assert_eq!(name_of(&out[0]), "third");
    assert_eq!(name_of(&out[1]), "first");
    assert_eq!(name_of(&out[2]), "second");
}

#[test]
fn missing_sort_field_sorts_first() {
    let mut a = doc_with_name("with-key");
    a.set(String::from("key"), Value::Num(Rational { num: 1, den: 1 }));
    let b = doc_with_name("without-key");
    let facade = QueryFacade::new(store_of(vec![a, b]), String::from("recipes"));
    let out = facade
        .aggregate(vec![Stage::Sort { field: String::from("key"), ascending: true }])
        .unwrap();
    assert_eq!(name_of(&out[0]), "without-key");
    assert_eq!(name_of(&out[1]), "with-key");
}

#[test]
fn match_and_sort_return_exactly_addison() {
    let docs = vec![doc_with_name("Addison"), doc_with_name("Boulevardier"), doc_with_name("Americano")];
    let facade = QueryFacade::new(store_of(docs), String::from("recipes"));
    let out = facade
        .aggregate(vec![
            Stage::Match(Pred::Le {
                field: String::from("name"),
                literal: Value::Str(String::from("Addison")),
            }),
            Stage::Sort { field: String::from("name"), ascending: true },
        ])
        .unwrap();
    assert_eq!(out.len(), 1);
    assert_eq!(name_of(&out[0]), "Addison");
}

#[test]
fn find_is_match_then_sort() {
    let docs = vec![doc_with_name("Addison"), doc_with_name("Boulevardier"), doc_with_name("Americano")];
    let facade = QueryFacade::new(store_of(docs), String::from("recipes"));
    let out = facade
        .find(
            &Pred::Le {
                field: String::from("name"),
                literal: Value::Str(String::from("Americano")),
            },
            Some((String::from("name"), true)),
        )
        .unwrap();
    assert_eq!(out.len(), 2);
    let refused = facade.find(
        &Pred::Le { field: String::from("name"), literal: Value::Null },
        None,
    );
    assert!(matches!(refused, Err(PipelineError::Configuration { stage_index: 0 })));
    assert_eq!(name_of(&out[0]), "Addison");
    assert_eq!(name_of(&out[1]), "Americano");
}

#[test]
fn elem_match_finds_vodka_cocktails() {
    let mut screwdriver = doc_with_name("Screwdriver");
    let mut vodka = Document::new();
    vodka.set(String::from("name"), Value::Str(String::from("Vodka")));
    let mut oj = Document::new();
    oj.set(String::from("name"), Value::Str(String::from("Orange Juice")));
    screwdriver.set(
        String::from("ingredients"),
        Value::Arr(vec![Value::Obj(vodka), Value::Obj(oj)]),
    );
    let mut negroni = doc_with_name("Negroni");
    let mut gin = Document::new();
    gin.set(String::from("name"), Value::Str(String::from("Gin")));
    negroni.set(String::from("ingredients"), Value::Arr(vec![Value::Obj(gin)]));
    let facade = QueryFacade::new(store_of(vec![screwdriver, negroni]), String::from("recipes"));
    let out = facade
        .aggregate(vec![Stage::Match(Pred::ElemMatch {
            field: String::from("ingredients"),
            inner: String::from("name"),
            literal: Value::Str(String::from("Vodka")),
        })])
        .unwrap();
    assert_eq!(out.len(), 1);
    assert_eq!(name_of(&out[0]), "Screwdriver");
}

#[test]
fn lookup_preserves_count_and_attaches_matches() {
    let mut a = doc_with_name("Addison");
    a.set(String::from("_id"), Value::Num(Rational { num: 1, den: 1 }));
    let mut b = doc_with_name("Americano");
    b.set(String::from("_id"), Value::Num(Rational { num: 2, den: 1 }));
    let mut r1 = Document::new();
    r1.set(String::from("recipe_id"), Value::Num(Rational { num: 1, den: 1 }));
    r1.set(String::from("rating"), Value::Num(Rational { num: 5, den: 1 }));
    let mut r2 = Document::new();
    r2.set(String::from("recipe_id"), Value::Num(Rational { num: 1, den: 1 }));
    r2.set(String::from("rating"), Value::Num(Rational { num: 3, den: 1 }));
    let mut store = Store::new();
    store.add_collection(String::from("recipes"), vec![a, b]);
    store.add_collection(String::from("reviews"), vec![r1, r2]);
    let facade = QueryFacade::new(store, String::from("recipes"));
    let out = facade
        .aggregate(vec![Stage::Lookup {
            from: String::from("reviews"),
            local_field: String::from("_id"),
            foreign_field: String::from("recipe_id"),
            as_field: String::from("reviews"),
        }])
        .unwrap();
    assert_eq!(out.len(), 2);
    match out[0].get("reviews") {
        Some(Value::Arr(items)) => assert_eq!(items.len(), 2),
        _ => panic!("expected an attached array"),
    }
    match out[1].get("reviews") {
        Some(Value::Arr(items)) => assert_eq!(items.len(), 0),
        _ => panic!("expected an empty attached array"),
    }
}

#[test]
fn lookup_from_missing_collection_attaches_empty_arrays() {
    let mut a = doc_with_name("Addison");
    a.set(String::from("_id"), Value::Num(Rational { num: 1, den: 1 }));
    let facade = QueryFacade::new(store_of(vec![a]), String::from("recipes"));
    let out = facade
        .aggregate(vec![Stage::Lookup {
            from: String::from("nowhere"),
            local_field: String::from("_id"),
            foreign_field: String::from("recipe_id"),
            as_field: String::from("reviews"),
        }])
        .unwrap();
    assert_eq!(out.len(), 1);
    match out[0].get("reviews") {
        Some(Value::Arr(items)) => assert_eq!(items.len(), 0),
        _ => panic!("expected an empty attached array"),
    }
}

#[test]
fn unsupported_order_literal_is_a_configuration_error() {
    let stages = vec![
        Stage::Sort { field: String::from("name"), ascending: true },
        Stage::Match(Pred::Le { field: String::from("name"), literal: Value::Bool(true) }),
    ];
    match Pipeline::new(stages) {
        Err(PipelineError::Configuration { stage_index }) => assert_eq!(stage_index, 1),
        _ => panic!("expected a configuration error"),
    }
}

#[test]
fn composite_equality_literal_is_a_configuration_error() {
    let facade = QueryFacade::new(store_of(vec![doc_with_name("A")]), String::from("recipes"));
    let out = facade.aggregate(vec![Stage::Match(Pred::Eq {
        field: String::from("name"),
        literal: Value::Arr(Vec::new()),
    })]);
    match out {
        Err(PipelineError::Configuration { stage_index }) => assert_eq!(stage_index, 0),
        _ => panic!("expected a configuration error"),
    }
}

#[test]
fn average_overflow_is_reported_not_truncated() {
    let mut a = doc_with_name("Overflowing");
    let mut r1 = Document::new();
    r1.set(String::from("rating"), Value::Num(Rational { num: i64::MAX, den: 1 }));
    let mut r2 = Document::new();
    r2.set(String::from("rating"), Value::Num(Rational { num: i64::MAX, den: 1 }));
    a.set(String::from("reviews"), Value::Arr(vec![Value::Obj(r1), Value::Obj(r2)]));
    let facade = QueryFacade::new(store_of(vec![a]), String::from("recipes"));
    let out = facade.aggregate(vec![Stage::AddField {
        field: String::from("rating"),
        expr: Expr::Avg { source: String::from("reviews"), item: String::from("rating") },
    }]);
    match out {
        Err(PipelineError::NumericOverflow) => {}
        _ => panic!("expected a numeric overflow"),
    }
}
