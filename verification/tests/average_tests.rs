use cocktails::avg::{mean, round_half};
use cocktails::document::{Document, Rational, Value};
use cocktails::facade::QueryFacade;
use cocktails::pipeline::Store;
use cocktails::stage::{Expr, Stage};

fn recipe_with_ratings(ratings: &[i64]) -> Document {
    let mut d = Document::new();
    d.set(String::from("name"), Value::Str(String::from("Test")));
    let mut reviews: Vec<Value> = Vec::new();
    for r in ratings {
        let mut rev = Document::new();
        rev.set(String::from("rating"), Value::Num(Rational { num: *r, den: 1 }));
        reviews.push(Value::Obj(rev));
    }
    d.set(String::from("reviews"), Value::Arr(reviews));
    d
}

fn run_avg(doc: Document, rounded: bool) -> Document {
    let mut store = Store::new();
    store.add_collection(String::from("recipes"), vec![doc]);
    let facade = QueryFacade::new(store, String::from("recipes"));
    let expr = if rounded {
        Expr::AvgRounded { source: String::from("reviews"), item: String::from("rating") }
    } else {
        Expr::Avg { source: String::from("reviews"), item: String::from("rating") }
    };
    let mut out = facade
        .aggregate(vec![Stage::AddField { field: String::from("rating"), expr }])
        .unwrap();
    out.remove(0)
}

#[test]
fn average_of_3_4_5_is_exactly_4() {
    let out = run_avg(recipe_with_ratings(&[3, 4, 5]), false);
    match out.get("rating") {
        Some(Value::Num(q)) => assert_eq!(*q, Rational { num: 4, den: 1 }),
        _ => panic!("expected a numeric rating"),
    }
}

#[test]
fn average_of_empty_reviews_is_the_no_value_marker() {
    let out = run_avg(recipe_with_ratings(&[]), false);
    match out.get("rating") {
        Some(Value::Null) => {}
        _ => panic!("expected the explicit no-value marker, never zero"),
    }
}

#[test]
fn average_of_missing_reviews_field_is_the_no_value_marker() {
    let mut d = Document::new();
    d.set(String::from("name"), Value::Str(String::from("Bare")));
    let out = run_avg(d, false);
    match out.get("rating") {
        Some(Value::Null) => {}
        _ => panic!("expected the explicit no-value marker"),
    }
}

#[test]
fn average_keeps_exact_fractions() {
    let out = run_avg(recipe_with_ratings(&[3, 4]), false);
    match out.get("rating") {
        Some(Value::Num(q)) => assert_eq!(*q, Rational { num: 7, den: 2 }),
        _ => panic!("expected a numeric rating"),
    }
}

#[test]
fn non_numeric_entries_are_passed_over() {
    let mut d = Document::new();
    d.set(String::from("name"), Value::Str(String::from("Mixed")));
    let mut good = Document::new();
    good.set(String::from("rating"), Value::Num(Rational { num: 4, den: 1 }));
    let mut bad = Document::new();
    bad.set(String::from("rating"), Value::Str(String::from("great")));
    d.set(
        String::from("reviews"),
        Value::Arr(vec![Value::Obj(good), Value::Obj(bad), Value::Null]),
    );
    let out = run_avg(d, false);
    match out.get("rating") {
        Some(Value::Num(q)) => assert_eq!(*q, Rational { num: 4, den: 1 }),
        _ => panic!("expected a numeric rating"),
    }
}

#[test]
fn round_to_nearest_half_rounds_4_33_up() {
    // 4.33: doubled is 8.66, nearest integer 9, halved is 4.5
    let r = round_half(&Rational { num: 433, den: 100 }).unwrap();
    assert_eq!(r, Rational { num: 9, den: 2 });
}

#[test]
fn round_to_nearest_half_rounds_4_24_down() {
    // 4.24: doubled is 8.48, nearest integer 8, halved is 4.0
    let r = round_half(&Rational { num: 424, den: 100 }).unwrap();
    assert_eq!(r, Rational { num: 8, den: 2 });
}

#[test]
fn rounded_average_stage_rounds_to_halves() {
    // ratings 4, 4, 5: mean 13/3 (about 4.33) rounds to 4.5
    let out = run_avg(recipe_with_ratings(&[4, 4, 5]), true);
    match out.get("rating") {
        Some(Value::Num(q)) => assert_eq!(*q, Rational { num: 9, den: 2 }),
        _ => panic!("expected a numeric rating"),
    }
}

#[test]
fn mean_reduces_to_lowest_terms() {
    let entries = vec![
        Rational { num: 1, den: 2 },
        Rational { num: 1, den: 2 },
        Rational { num: 1, den: 1 },
    ];
    let m = mean(&entries).unwrap().unwrap();
    // (1/2 + 1/2 + 1) / 3 = 2/3
    assert_eq!(m, Rational { num: 2, den: 3 });
}

#[test]
fn mean_of_no_entries_is_none() {
    let entries: Vec<Rational> = Vec::new();
    assert_eq!(mean(&entries), Some(None));
}
