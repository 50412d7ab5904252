use cocktails::document::{Document, Rational, Value};
use cocktails::project::{project, to_document, ExpectedType, Ingredient, Recipe, Review};

fn ingredient_value(name: &str) -> Value {
    let mut d = Document::new();
    d.set(String::from("name"), Value::Str(String::from(name)));
    Value::Obj(d)
}

fn review_value(when: i64, rating: i64) -> Value {
    let mut d = Document::new();
    d.set(String::from("when"), Value::Ts(when));
    d.set(String::from("rating"), Value::Num(Rational { num: rating, den: 1 }));
    Value::Obj(d)
}

fn full_doc() -> Document {
    let mut d = Document::new();
    d.set(String::from("name"), Value::Str(String::from("Negroni Sbagliato")));
    d.set(
        String::from("ingredients"),
        Value::Arr(vec![ingredient_value("Campari"), ingredient_value("Prosecco")]),
    );
    d.set(String::from("rating"), Value::Num(Rational { num: 9, den: 2 }));
    d.set(String::from("reviews"), Value::Arr(vec![review_value(1000, 4), review_value(2000, 5)]));
    d
}

#[test]
fn projecting_a_full_document_reads_every_field() {
    let r = project(&full_doc()).unwrap();
    assert_eq!(r.name, "Negroni Sbagliato");
    assert_eq!(r.ingredients.len(), 2);
    assert_eq!(r.ingredients[0].name, "Campari");
    assert_eq!(r.ingredients[1].name, "Prosecco");
    assert_eq!(r.rating, Rational { num: 9, den: 2 });
    assert_eq!(r.reviews, vec![Review { when: 1000, rating: 4 }, Review { when: 2000, rating: 5 }]);
}

#[test]
fn missing_reviews_defaults_to_empty_and_rating_to_zero() {
    let mut d = Document::new();
    d.set(String::from("name"), Value::Str(String::from("Plain")));
    d.set(String::from("ingredients"), Value::Arr(Vec::new()));
    let r = project(&d).unwrap();
    assert_eq!(r.reviews.len(), 0);
    assert_eq!(r.rating, Rational { num: 0, den: 1 });
}

#[test]
fn missing_name_is_a_projection_error_naming_name() {
    let mut d = Document::new();
    d.set(String::from("ingredients"), Value::Arr(Vec::new()));
    let e = project(&d).unwrap_err();
    assert_eq!(e.field, "name");
    assert_eq!(e.expected, ExpectedType::Str);
}

#[test]
fn wrongly_typed_name_is_a_projection_error_naming_name() {
    let mut d = Document::new();
    d.set(String::from("name"), Value::Num(Rational { num: 1, den: 1 }));
    d.set(String::from("ingredients"), Value::Arr(Vec::new()));
    let e = project(&d).unwrap_err();
    assert_eq!(e.field, "name");
    assert_eq!(e.expected, ExpectedType::Str);
}

#[test]
fn missing_ingredients_is_a_projection_error() {
    let mut d = Document::new();
    d.set(String::from("name"), Value::Str(String::from("Bare")));
    let e = project(&d).unwrap_err();
    assert_eq!(e.field, "ingredients");
    assert_eq!(e.expected, ExpectedType::Arr);
}

#[test]
fn ingredient_without_name_is_a_projection_error() {
    let mut d = Document::new();
    d.set(String::from("name"), Value::Str(String::from("Broken")));
    d.set(String::from("ingredients"), Value::Arr(vec![Value::Obj(Document::new())]));
    let e = project(&d).unwrap_err();
    assert_eq!(e.field, "ingredients.name");
    assert_eq!(e.expected, ExpectedType::Str);
}

#[test]
fn review_without_timestamp_is_a_projection_error() {
    let mut d = Document::new();
    d.set(String::from("name"), Value::Str(String::from("Broken")));
    d.set(String::from("ingredients"), Value::Arr(Vec::new()));
    let mut rev = Document::new();
    rev.set(String::from("rating"), Value::Num(Rational { num: 4, den: 1 }));
    d.set(String::from("reviews"), Value::Arr(vec![Value::Obj(rev)]));
    let e = project(&d).unwrap_err();
    assert_eq!(e.field, "reviews.when");
    assert_eq!(e.expected, ExpectedType::Ts);
}

#[test]
fn out_of_range_review_rating_is_a_projection_error() {
    let mut d = Document::new();
    d.set(String::from("name"), Value::Str(String::from("Broken")));
    d.set(String::from("ingredients"), Value::Arr(Vec::new()));
    d.set(String::from("reviews"), Value::Arr(vec![review_value(1000, 256)]));
    let e = project(&d).unwrap_err();
    assert_eq!(e.field, "reviews.rating");
    assert_eq!(e.expected, ExpectedType::Rating);
}

#[test]
fn fractional_review_rating_is_a_projection_error() {
    let mut d = Document::new();
    d.set(String::from("name"), Value::Str(String::from("Broken")));
    d.set(String::from("ingredients"), Value::Arr(Vec::new()));
    let mut rev = Document::new();
    rev.set(String::from("when"), Value::Ts(1000));
    rev.set(String::from("rating"), Value::Num(Rational { num: 9, den: 2 }));
    d.set(String::from("reviews"), Value::Arr(vec![Value::Obj(rev)]));
    let e = project(&d).unwrap_err();
    assert_eq!(e.field, "reviews.rating");
    assert_eq!(e.expected, ExpectedType::Rating);
}

#[test]
fn wrongly_typed_rating_field_is_a_projection_error() {
    let mut d = Document::new();
    d.set(String::from("name"), Value::Str(String::from("Broken")));
    d.set(String::from("ingredients"), Value::Arr(Vec::new()));
    d.set(String::from("rating"), Value::Str(String::from("great")));
    let e = project(&d).unwrap_err();
    assert_eq!(e.field, "rating");
    assert_eq!(e.expected, ExpectedType::Num);
}

#[test]
fn round_trip_preserves_every_field() {
    let recipe = Recipe {
        name: String::from("Addison"),
        ingredients: vec![
            Ingredient { name: String::from("Gin") },
            Ingredient { name: String::from("Campari") },
        ],
        rating: Rational { num: 7, den: 2 },
        reviews: vec![Review { when: 123, rating: 3 }, Review { when: 456, rating: 5 }],
    };
    let d = to_document(&recipe);
    let back = project(&d).unwrap();
    assert_eq!(back.name, "Addison");
    assert_eq!(back.ingredients.len(), 2);
    assert_eq!(back.ingredients[0].name, "Gin");
    assert_eq!(back.ingredients[1].name, "Campari");
    assert_eq!(back.rating, Rational { num: 7, den: 2 });
    assert_eq!(back.reviews, recipe.reviews);
}

#[test]
fn display_renders_name_rating_and_review_ratings() {
    let recipe = Recipe {
        name: String::from("Negroni"),
        ingredients: Vec::new(),
        rating: Rational { num: 4, den: 1 },
        reviews: vec![
            Review { when: 1, rating: 3 },
            Review { when: 2, rating: 4 },
            Review { when: 3, rating: 5 },
        ],
    };
    assert_eq!(recipe.display_string(), "Recipe: Negroni, Rating: 4 (3, 4, 5)");
}

#[test]
fn display_renders_fractional_ratings_as_fractions() {
    let recipe = Recipe {
        name: String::from("Sbagliato"),
        ingredients: Vec::new(),
        rating: Rational { num: 9, den: 2 },
        reviews: Vec::new(),
    };
    assert_eq!(recipe.display_string(), "Recipe: Sbagliato, Rating: 9/2 ()");
    assert_eq!(Review { when: 0, rating: 250 }.display_string(), "250");
}
