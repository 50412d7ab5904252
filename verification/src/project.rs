//! The projector: converting one loosely-typed `Document` into a
//! strongly-typed `Recipe`, defaulting the optional fields and reporting
//! a typed failure for a required field that is missing or ill-typed.

use vstd::prelude::*;
use vstd::arithmetic::div_mod::lemma_fundamental_div_mod;
use crate::document::{
    dv_of_values, lemma_dv_of_values, lemma_lookup_first, lookup_dv, rden, Document, Dv,
    Rational, Value, Vv,
};

verus! {

/// One ingredient of a recipe.
#[derive(Debug)]
pub struct Ingredient {
    pub name: String,
}

/// One review of a recipe: when it was written, and a bounded rating.
#[derive(PartialEq, Eq, Structural, Clone, Copy, Debug)]
pub struct Review {
    /// Milliseconds since the epoch.
    pub when: i64,
    pub rating: u8,
}

/// A cocktail recipe.
#[derive(Debug)]
pub struct Recipe {
    pub name: String,
    pub ingredients: Vec<Ingredient>,
    /// Defaults to zero when the source document has no rating.
    pub rating: Rational,
    /// Defaults to empty when the source document has no reviews.
    pub reviews: Vec<Review>,
}

/// The spec-level view of a `Recipe`.
#[verifier::ext_equal]
pub struct RecipeV {
    pub name: Seq<char>,
    pub ingredients: Seq<Seq<char>>,
    pub rating: Rational,
    pub reviews: Seq<Review>,
}

/// The views of an ingredient list, element by element.
pub open spec fn ing_dvs(s: Seq<Ingredient>) -> Seq<Seq<char>>
    decreases s,
{
    if s.len() == 0 {
        Seq::empty()
    } else {
        seq![s[0].name@] + ing_dvs(s.drop_first())
    }
}

/// `ing_dvs` maps the list pointwise.
pub proof fn lemma_ing_dvs(s: Seq<Ingredient>)
    ensures
        ing_dvs(s).len() == s.len(),
        forall|i: int| 0 <= i < s.len() ==> ing_dvs(s)[i] == s[i].name@,
    decreases s,
{
    if s.len() > 0 {
        lemma_ing_dvs(s.drop_first());
    }
}

impl Recipe {
    /// The view of a recipe.
    pub open spec fn dv(self) -> RecipeV {
        RecipeV {
            name: self.name@,
            ingredients: ing_dvs(self.ingredients@),
            rating: self.rating,
            reviews: self.reviews@,
        }
    }
}

/// The kind of value the projector expected of a field.
#[derive(PartialEq, Eq, Structural, Clone, Copy, Debug)]
pub enum ExpectedType {
    /// A character string.
    Str,
    /// An array.
    Arr,
    /// A number.
    Num,
    /// A timestamp.
    Ts,
    /// An integral rating between 0 and 255.
    Rating,
}

/// A required-field failure: the offending field and the kind of value
/// that was expected there.
#[derive(Debug)]
pub struct ProjectionError {
    pub field: String,
    pub expected: ExpectedType,
}

/// The rating a numeric value projects to: its exact integer value, when
/// it has one between 0 and 255.
pub open spec fn rating_of(q: Rational) -> Option<u8> {
    let d = rden(q);
    if (q.num as int) % d == 0 && 0 <= (q.num as int) / d <= 255 {
        Some(((q.num as int) / d) as u8)
    } else {
        None
    }
}

/// The ingredient names of an array of ingredient sub-documents, or the
/// first failure.
pub open spec fn project_ingredients(items: Seq<Vv>) -> Result<
    Seq<Seq<char>>,
    (Seq<char>, ExpectedType),
>
    decreases items.len(),
{
    if items.len() == 0 {
        Ok(Seq::empty())
    } else {
        match items[0] {
            Vv::Obj(sub) => match lookup_dv(sub, "name"@) {
                Option::Some(Vv::Str(nm)) => match project_ingredients(items.drop_first()) {
                    Result::Ok(t) => Ok(seq![nm] + t),
                    Result::Err(e) => Err(e),
                },
                _ => Err(("ingredients.name"@, ExpectedType::Str)),
            },
            _ => Err(("ingredients"@, ExpectedType::Arr)),
        }
    }
}

/// The reviews of an array of review sub-documents, or the first failure.
pub open spec fn project_reviews(items: Seq<Vv>) -> Result<Seq<Review>, (Seq<char>, ExpectedType)>
    decreases items.len(),
{
    if items.len() == 0 {
        Ok(Seq::empty())
    } else {
        match items[0] {
            Vv::Obj(sub) => match lookup_dv(sub, "when"@) {
                Option::Some(Vv::Ts(t)) => match lookup_dv(sub, "rating"@) {
                    Option::Some(Vv::Num(q)) => match rating_of(q) {
                        Option::Some(k) => match project_reviews(items.drop_first()) {
                            Result::Ok(rest) => Ok(seq![Review { when: t, rating: k }] + rest),
                            Result::Err(e) => Err(e),
                        },
                        Option::None => Err(("reviews.rating"@, ExpectedType::Rating)),
                    },
                    _ => Err(("reviews.rating"@, ExpectedType::Rating)),
                },
                _ => Err(("reviews.when"@, ExpectedType::Ts)),
            },
            _ => Err(("reviews"@, ExpectedType::Arr)),
        }
    }
}

/// The recipe's rating field: zero when absent, a failure when present
/// and not a number.
pub open spec fn rating_field(d: Dv) -> Result<Rational, (Seq<char>, ExpectedType)> {
    match lookup_dv(d, "rating"@) {
        Option::None => Ok(Rational { num: 0, den: 1 }),
        Option::Some(v) => match v {
            Vv::Num(q) => Ok(q),
            _ => Err(("rating"@, ExpectedType::Num)),
        },
    }
}

/// The recipe's reviews field: empty when absent, a failure when present
/// and not a well-formed review array.
pub open spec fn reviews_field(d: Dv) -> Result<Seq<Review>, (Seq<char>, ExpectedType)> {
    match lookup_dv(d, "reviews"@) {
        Option::None => Ok(Seq::empty()),
        Option::Some(v) => match v {
            Vv::Arr(items) => project_reviews(items),
            _ => Err(("reviews"@, ExpectedType::Arr)),
        },
    }
}

/// Converting one document into a recipe: `name` and `ingredients` are
/// required (with each ingredient's `name`, each review's `when` and
/// `rating`); `rating` and `reviews` default when absent.
pub open spec fn project_dv(d: Dv) -> Result<RecipeV, (Seq<char>, ExpectedType)> {
    match lookup_dv(d, "name"@) {
        Option::Some(Vv::Str(nm)) => match lookup_dv(d, "ingredients"@) {
            Option::Some(Vv::Arr(items)) => match project_ingredients(items) {
                Result::Ok(ings) => match rating_field(d) {
                    Result::Ok(q) => match reviews_field(d) {
                        Result::Ok(rs) => Ok(
                            RecipeV { name: nm, ingredients: ings, rating: q, reviews: rs },
                        ),
                        Result::Err(e) => Err(e),
                    },
                    Result::Err(e) => Err(e),
                },
                Result::Err(e) => Err(e),
            },
            _ => Err(("ingredients"@, ExpectedType::Arr)),
        },
        _ => Err(("name"@, ExpectedType::Str)),
    }
}

/// The exact integer rating of a numeric value, as `rating_of` describes.
pub fn rating_of_exec(q: &Rational) -> (r: Option<u8>)
    ensures
        r == rating_of(*q),
{
    let d = crate::avg::rden_exec(q);
    if q.num < 0 {
        proof {
            lemma_fundamental_div_mod(q.num as int, d as int);
            if (q.num as int) % (d as int) == 0 && (q.num as int) / (d as int) >= 0 {
                assert((d as int) * ((q.num as int) / (d as int)) >= 0) by (nonlinear_arith)
                    requires
                        d as int >= 1,
                        (q.num as int) / (d as int) >= 0,
                ;
            }
        }
        None
    } else {
        let nn = q.num as u128;
        let dd = d as u128;
        let rem = nn % dd;
        if rem != 0 {
            None
        } else {
            let k = nn / dd;
            if k <= 255 {
                Some(k as u8)
            } else {
                None
            }
        }
    }
}

/// Converts the document into a typed recipe, as `project_dv` describes:
/// pure, and total on every document.
#[verifier::rlimit(60)]
pub fn project(d: &Document) -> (r: Result<Recipe, ProjectionError>)
    ensures
        match project_dv(d.dv()) {
            Result::Ok(rv) => r is Ok && r->Ok_0.dv() == rv,
            Result::Err(e) => r is Err && (r->Err_0.field@, r->Err_0.expected) == e,
        },
{
    let name: String = match d.get("name") {
        Option::Some(v) => match v {
            Value::Str(s) => s.clone(),
            _ => {
                return Err(
                    ProjectionError { field: "name".to_owned(), expected: ExpectedType::Str },
                );
            },
        },
        Option::None => {
            return Err(ProjectionError { field: "name".to_owned(), expected: ExpectedType::Str });
        },
    };
    let ingredients: Vec<Ingredient> = match d.get("ingredients") {
        Option::Some(v) => match v {
            Value::Arr(items) => {
                let ghost idv = dv_of_values(items@);
                let mut out: Vec<Ingredient> = Vec::new();
                let n = items.len();
                let mut i: usize = 0;
                proof {
                    lemma_dv_of_values(items@);
                    assert(idv.skip(0) =~= idv);
                }
                #[verifier::loop_isolation(false)]
                while i < n
                    invariant
                        n == items@.len(),
                        i <= n,
                        project_ingredients(idv) == (match project_ingredients(
                            idv.skip(i as int),
                        ) {
                            Result::Ok(t) => Result::<
                                Seq<Seq<char>>,
                                (Seq<char>, ExpectedType),
                            >::Ok(ing_dvs(out@) + t),
                            Result::Err(e) => Result::Err(e),
                        }),
                    decreases n - i,
                {
                    proof {
                        assert(idv.skip(i as int)[0] == items@[i as int].dv());
                        assert(idv.skip(i as int).drop_first() =~= idv.skip(i as int + 1));
                    }
                    match &items[i] {
                        Value::Obj(sub) => match sub.get("name") {
                            Option::Some(w) => match w {
                                Value::Str(s) => {
                                    let ghost out_before = out@;
                                    out.push(Ingredient { name: s.clone() });
                                    proof {
                                        lemma_ing_dvs(out_before);
                                        lemma_ing_dvs(out@);
                                        assert(ing_dvs(out@) =~= ing_dvs(out_before) + seq![s@]);
                                        match project_ingredients(idv.skip(i as int + 1)) {
                                            Result::Ok(t) => {
                                                assert(ing_dvs(out_before) + (seq![s@] + t)
                                                    =~= ing_dvs(out@) + t);
                                            },
                                            Result::Err(_) => {},
                                        }
                                    }
                                },
                                _ => {
                                    return Err(
                                        ProjectionError {
                                            field: "ingredients.name".to_owned(),
                                            expected: ExpectedType::Str,
                                        },
                                    );
                                },
                            },
                            Option::None => {
                                return Err(
                                    ProjectionError {
                                        field: "ingredients.name".to_owned(),
                                        expected: ExpectedType::Str,
                                    },
                                );
                            },
                        },
                        _ => {
                            return Err(
                                ProjectionError {
                                    field: "ingredients".to_owned(),
                                    expected: ExpectedType::Arr,
                                },
                            );
                        },
                    }
                    i += 1;
                }
                proof {
                    assert(idv.skip(n as int) =~= Seq::<Vv>::empty());
                    assert(project_ingredients(idv) == Result::<
                        Seq<Seq<char>>,
                        (Seq<char>, ExpectedType),
                    >::Ok(ing_dvs(out@)));
                }
                out
            },
            _ => {
                return Err(
                    ProjectionError {
                        field: "ingredients".to_owned(),
                        expected: ExpectedType::Arr,
                    },
                );
            },
        },
        Option::None => {
            return Err(
                ProjectionError { field: "ingredients".to_owned(), expected: ExpectedType::Arr },
            );
        },
    };
    let rating: Rational = match d.get("rating") {
        Option::None => Rational { num: 0, den: 1 },
        Option::Some(v) => match v {
            Value::Num(q) => *q,
            _ => {
                return Err(
                    ProjectionError { field: "rating".to_owned(), expected: ExpectedType::Num },
                );
            },
        },
    };
    let reviews: Vec<Review> = match d.get("reviews") {
        Option::None => Vec::new(),
        Option::Some(v) => match v {
            Value::Arr(items) => {
                let ghost idv = dv_of_values(items@);
                let mut out: Vec<Review> = Vec::new();
                let n = items.len();
                let mut i: usize = 0;
                proof {
                    lemma_dv_of_values(items@);
                    assert(idv.skip(0) =~= idv);
                }
                #[verifier::loop_isolation(false)]
                while i < n
                    invariant
                        n == items@.len(),
                        i <= n,
                        project_reviews(idv) == (match project_reviews(idv.skip(i as int)) {
                            Result::Ok(t) => Result::<
                                Seq<Review>,
                                (Seq<char>, ExpectedType),
                            >::Ok(out@ + t),
                            Result::Err(e) => Result::Err(e),
                        }),
                    decreases n - i,
                {
                    proof {
                        assert(idv.skip(i as int)[0] == items@[i as int].dv());
                        assert(idv.skip(i as int).drop_first() =~= idv.skip(i as int + 1));
                    }
                    match &items[i] {
                        Value::Obj(sub) => {
                            let when: i64 = match sub.get("when") {
                                Option::Some(w) => match w {
                                    Value::Ts(t) => *t,
                                    _ => {
                                        return Err(
                                            ProjectionError {
                                                field: "reviews.when".to_owned(),
                                                expected: ExpectedType::Ts,
                                            },
                                        );
                                    },
                                },
                                Option::None => {
                                    return Err(
                                        ProjectionError {
                                            field: "reviews.when".to_owned(),
                                            expected: ExpectedType::Ts,
                                        },
                                    );
                                },
                            };
                            let rating: u8 = match sub.get("rating") {
                                Option::Some(w) => match w {
                                    Value::Num(q) => match rating_of_exec(q) {
                                        Option::Some(k) => k,
                                        Option::None => {
                                            return Err(
                                                ProjectionError {
                                                    field: "reviews.rating".to_owned(),
                                                    expected: ExpectedType::Rating,
                                                },
                                            );
                                        },
                                    },
                                    _ => {
                                        return Err(
                                            ProjectionError {
                                                field: "reviews.rating".to_owned(),
                                                expected: ExpectedType::Rating,
                                            },
                                        );
                                    },
                                },
                                Option::None => {
                                    return Err(
                                        ProjectionError {
                                            field: "reviews.rating".to_owned(),
                                            expected: ExpectedType::Rating,
                                        },
                                    );
                                },
                            };
                            let ghost out_before = out@;
                            out.push(Review { when, rating });
                            proof {
                                match project_reviews(idv.skip(i as int + 1)) {
                                    Result::Ok(t) => {
                                        assert(out_before + (seq![
                                            Review { when, rating },
                                        ] + t) =~= out@ + t);
                                    },
                                    Result::Err(_) => {},
                                }
                            }
                        },
                        _ => {
                            return Err(
                                ProjectionError {
                                    field: "reviews".to_owned(),
                                    expected: ExpectedType::Arr,
                                },
                            );
                        },
                    }
                    i += 1;
                }
                proof {
                    assert(idv.skip(n as int) =~= Seq::<Vv>::empty());
                    assert(out@ + Seq::<Review>::empty() =~= out@);
                }
                out
            },
            _ => {
                return Err(
                    ProjectionError { field: "reviews".to_owned(), expected: ExpectedType::Arr },
                );
            },
        },
    };
    let recipe = Recipe { name, ingredients, rating, reviews };
    proof {
        assert(project_dv(d.dv()) == Result::<
            RecipeV,
            (Seq<char>, ExpectedType),
        >::Ok(recipe.dv()));
    }
    Ok(recipe)
}

/// The document an ingredient serializes to.
pub open spec fn ingredient_doc(nm: Seq<char>) -> Dv {
    seq![("name"@, Vv::Str(nm))]
}

/// The document a review serializes to.
pub open spec fn review_doc(r: Review) -> Dv {
    seq![
        ("when"@, Vv::Ts(r.when)),
        ("rating"@, Vv::Num(Rational { num: r.rating as i64, den: 1u64 })),
    ]
}

/// The array elements an ingredient list serializes to.
pub open spec fn ings_docs(s: Seq<Seq<char>>) -> Seq<Vv>
    decreases s.len(),
{
    if s.len() == 0 {
        Seq::empty()
    } else {
        seq![Vv::Obj(ingredient_doc(s[0]))] + ings_docs(s.drop_first())
    }
}

/// The array elements a review list serializes to.
pub open spec fn revs_docs(s: Seq<Review>) -> Seq<Vv>
    decreases s.len(),
{
    if s.len() == 0 {
        Seq::empty()
    } else {
        seq![Vv::Obj(review_doc(s[0]))] + revs_docs(s.drop_first())
    }
}

/// `ings_docs` maps the list pointwise.
pub proof fn lemma_ings_docs(s: Seq<Seq<char>>)
    ensures
        ings_docs(s).len() == s.len(),
        forall|i: int| 0 <= i < s.len() ==> ings_docs(s)[i] == Vv::Obj(ingredient_doc(s[i])),
    decreases s.len(),
{
    if s.len() > 0 {
        lemma_ings_docs(s.drop_first());
    }
}

/// `revs_docs` maps the list pointwise.
pub proof fn lemma_revs_docs(s: Seq<Review>)
    ensures
        revs_docs(s).len() == s.len(),
        forall|i: int| 0 <= i < s.len() ==> revs_docs(s)[i] == Vv::Obj(review_doc(s[i])),
    decreases s.len(),
{
    if s.len() > 0 {
        lemma_revs_docs(s.drop_first());
    }
}

/// The document a recipe serializes to.
pub open spec fn recipe_doc(rv: RecipeV) -> Dv {
    seq![
        ("name"@, Vv::Str(rv.name)),
        ("ingredients"@, Vv::Arr(ings_docs(rv.ingredients))),
        ("rating"@, Vv::Num(rv.rating)),
        ("reviews"@, Vv::Arr(revs_docs(rv.reviews))),
    ]
}

/// Serializes the recipe to a document, as `recipe_doc` describes.
pub fn to_document(r: &Recipe) -> (d: Document)
    ensures
        d.dv() == recipe_doc(r.dv()),
{
    let mut ings: Vec<Value> = Vec::new();
    let n = r.ingredients.len();
    let mut i: usize = 0;
    proof {
        lemma_ing_dvs(r.ingredients@);
    }
    while i < n
        invariant
            n == r.ingredients@.len(),
            i <= n,
            ings@.len() == i,
            forall|j: int|
                0 <= j < i ==> ings@[j].dv() == Vv::Obj(ingredient_doc(
                    r.ingredients@[j].name@,
                )),
        decreases n - i,
    {
        let mut f: Vec<(String, Value)> = Vec::new();
        f.push(("name".to_owned(), Value::Str(r.ingredients[i].name.clone())));
        proof {
            crate::document::lemma_dv_of_fields(f@);
            assert(crate::document::dv_of_fields(f@) =~= ingredient_doc(
                r.ingredients@[i as int].name@,
            ));
        }
        ings.push(Value::Obj(Document { fields: f }));
        i += 1;
    }
    let mut revs: Vec<Value> = Vec::new();
    let m = r.reviews.len();
    let mut j: usize = 0;
    while j < m
        invariant
            m == r.reviews@.len(),
            j <= m,
            revs@.len() == j,
            forall|k: int| 0 <= k < j ==> revs@[k].dv() == Vv::Obj(review_doc(r.reviews@[k])),
        decreases m - j,
    {
        let rv = r.reviews[j];
        let mut f: Vec<(String, Value)> = Vec::new();
        f.push(("when".to_owned(), Value::Ts(rv.when)));
        f.push(
            ("rating".to_owned(), Value::Num(Rational { num: rv.rating as i64, den: 1 })),
        );
        proof {
            crate::document::lemma_dv_of_fields(f@);
            assert(crate::document::dv_of_fields(f@) =~= review_doc(r.reviews@[j as int]));
        }
        revs.push(Value::Obj(Document { fields: f }));
        j += 1;
    }
    let mut fields: Vec<(String, Value)> = Vec::new();
    fields.push(("name".to_owned(), Value::Str(r.name.clone())));
    fields.push(("ingredients".to_owned(), Value::Arr(ings)));
    fields.push(("rating".to_owned(), Value::Num(r.rating)));
    fields.push(("reviews".to_owned(), Value::Arr(revs)));
    let d = Document { fields };
    proof {
        crate::document::lemma_dv_of_fields(d.fields@);
        lemma_dv_of_values(d.fields@[1].1->Arr_0@);
        lemma_dv_of_values(d.fields@[3].1->Arr_0@);
        lemma_ings_docs(ing_dvs(r.ingredients@));
        lemma_revs_docs(r.reviews@);
        assert(dv_of_values(d.fields@[1].1->Arr_0@) =~= ings_docs(ing_dvs(r.ingredients@)));
        assert(dv_of_values(d.fields@[3].1->Arr_0@) =~= revs_docs(r.reviews@));
        assert(d.dv() =~= recipe_doc(r.dv()));
    }
    d
}

/// Projecting an ingredient array back yields the ingredient names.
proof fn lemma_ingredients_round_trip(s: Seq<Seq<char>>)
    ensures
        project_ingredients(ings_docs(s)) == Result::<
            Seq<Seq<char>>,
            (Seq<char>, ExpectedType),
        >::Ok(s),
    decreases s.len(),
{
    lemma_ings_docs(s);
    if s.len() > 0 {
        lemma_ingredients_round_trip(s.drop_first());
        assert(ings_docs(s)[0] == Vv::Obj(ingredient_doc(s[0])));
        assert(lookup_dv(ingredient_doc(s[0]), "name"@) == Some(Vv::Str(s[0])));
        assert(ings_docs(s).drop_first() =~= ings_docs(s.drop_first()));
        assert(project_ingredients(ings_docs(s).drop_first()) == Result::<
            Seq<Seq<char>>,
            (Seq<char>, ExpectedType),
        >::Ok(s.drop_first()));
        assert(seq![s[0]] + s.drop_first() =~= s);
        assert(ings_docs(s).len() == s.len());
        assert(project_ingredients(ings_docs(s)) == Result::<
            Seq<Seq<char>>,
            (Seq<char>, ExpectedType),
        >::Ok(seq![s[0]] + s.drop_first()));
    } else {
        assert(ings_docs(s) =~= Seq::<Vv>::empty());
        assert(s =~= Seq::<Seq<char>>::empty());
    }
}

/// Projecting a review array back yields the reviews.
proof fn lemma_reviews_round_trip(s: Seq<Review>)
    ensures
        project_reviews(revs_docs(s)) == Result::<Seq<Review>, (Seq<char>, ExpectedType)>::Ok(s),
    decreases s.len(),
{
    lemma_revs_docs(s);
    if s.len() > 0 {
        lemma_reviews_round_trip(s.drop_first());
        assert(revs_docs(s).drop_first() =~= revs_docs(s.drop_first()));
        let rd = review_doc(s[0]);
        reveal_strlit("when");
        reveal_strlit("rating");
        assert(rd[0].0 == "when"@ && rd[1].0 == "rating"@);
        assert("when"@ != "rating"@);
        lemma_lookup_first(rd, "when"@, 0);
        lemma_lookup_first(rd, "rating"@, 1);
        assert(lookup_dv(rd, "when"@) == Some(Vv::Ts(s[0].when)));
        assert(lookup_dv(rd, "rating"@) == Some(
            Vv::Num(Rational { num: s[0].rating as i64, den: 1u64 }),
        ));
        let q = Rational { num: s[0].rating as i64, den: 1u64 };
        lemma_fundamental_div_mod(q.num as int, 1);
        assert(rating_of(q) == Some(s[0].rating));
        assert(seq![s[0]] + s.drop_first() =~= s);
    } else {
        assert(revs_docs(s) =~= Seq::<Vv>::empty());
        assert(s =~= Seq::<Review>::empty());
    }
}

/// Round trip: serializing a recipe to a document and projecting it back
/// yields the recipe, every field preserved.
pub proof fn lemma_project_round_trip(rv: RecipeV)
    ensures
        project_dv(recipe_doc(rv)) == Result::<RecipeV, (Seq<char>, ExpectedType)>::Ok(rv),
{
    reveal_strlit("name");
    reveal_strlit("ingredients");
    reveal_strlit("rating");
    reveal_strlit("reviews");
    let d = recipe_doc(rv);
    assert(d[0].0 == "name"@ && d[1].0 == "ingredients"@ && d[2].0 == "rating"@ && d[3].0
        == "reviews"@);
    assert("name"@ != "ingredients"@ && "name"@ != "rating"@ && "name"@ != "reviews"@
        && "ingredients"@ != "rating"@ && "ingredients"@ != "reviews"@ && "rating"@
        != "reviews"@);
    lemma_lookup_first(d, "name"@, 0);
    lemma_lookup_first(d, "ingredients"@, 1);
    lemma_lookup_first(d, "rating"@, 2);
    lemma_lookup_first(d, "reviews"@, 3);
    assert(lookup_dv(d, "name"@) == Some(Vv::Str(rv.name)));
    assert(lookup_dv(d, "ingredients"@) == Some(Vv::Arr(ings_docs(rv.ingredients))));
    assert(lookup_dv(d, "rating"@) == Some(Vv::Num(rv.rating)));
    assert(lookup_dv(d, "reviews"@) == Some(Vv::Arr(revs_docs(rv.reviews))));
    lemma_ingredients_round_trip(rv.ingredients);
    lemma_reviews_round_trip(rv.reviews);
    assert(project_dv(d)->Ok_0 =~= rv);
}

} // verus!
