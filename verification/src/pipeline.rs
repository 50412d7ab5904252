//! The pipeline executor: the meaning of each stage over a stream of
//! documents, and the stage-by-stage run of a whole pipeline.

use vstd::prelude::*;
use crate::avg::{mean, mean_spec, round_half, round_half_spec};
use crate::document::{
    dv_of_values, dvs_of, lemma_dv_of_values, lemma_dvs_of, lookup_dv, set_dv, Document, Dv,
    Rational, Value, Vv,
};
use crate::order::{rank, scalar_eq, scalar_eq_v, value_le, value_le_exec};
use crate::sort::{apply_sort, sort_docs};
use crate::stage::{lemma_stages_dv, stages_dv, Expr, ExprV, Pred, PredV, Stage, StageV};

verus! {

/// Whether an array element satisfies an element-match: it is a
/// sub-document whose `inner` field holds a scalar equal to the literal.
pub open spec fn elem_matches(v: Vv, inner: Seq<char>, literal: Vv) -> bool {
    match v {
        Vv::Obj(sub) => match lookup_dv(sub, inner) {
            Option::Some(w) => scalar_eq_v(w, literal),
            Option::None => false,
        },
        _ => false,
    }
}

/// Whether the value is an array with an element satisfying the
/// element-match.
pub open spec fn arr_has_match(v: Vv, inner: Seq<char>, literal: Vv) -> bool {
    v is Arr && exists|i: int|
        0 <= i < v->Arr_0.len() && elem_matches(#[trigger] v->Arr_0[i], inner, literal)
}

/// Whether a document satisfies a predicate. A document lacking the
/// predicate's field satisfies nothing.
pub open spec fn pred_holds(p: PredV, d: Dv) -> bool {
    match p {
        PredV::Eq { field, literal } => match lookup_dv(d, field) {
            Option::Some(v) => scalar_eq_v(v, literal),
            Option::None => false,
        },
        PredV::ElemMatch { field, inner, literal } => match lookup_dv(d, field) {
            Option::Some(v) => arr_has_match(v, inner, literal),
            Option::None => false,
        },
        PredV::Le { field, literal } => match lookup_dv(d, field) {
            Option::Some(v) => rank(v) == rank(literal) && value_le(v, literal),
            Option::None => false,
        },
    }
}

/// The documents of `s` satisfying `p`, in order.
pub open spec fn match_docs(p: PredV, s: Seq<Dv>) -> Seq<Dv>
    decreases s.len(),
{
    if s.len() == 0 {
        Seq::empty()
    } else if pred_holds(p, s[0]) {
        seq![s[0]] + match_docs(p, s.drop_first())
    } else {
        match_docs(p, s.drop_first())
    }
}

/// The first `n` documents of `s`.
pub open spec fn limit_docs(n: int, s: Seq<Dv>) -> Seq<Dv> {
    if n <= s.len() {
        s.take(n)
    } else {
        s
    }
}

/// Whether the document satisfies the predicate.
pub fn pred_holds_exec(p: &Pred, d: &Document) -> (r: bool)
    ensures
        r == pred_holds(p.dv(), d.dv()),
{
    match p {
        Pred::Eq { field, literal } => match d.get(field.as_str()) {
            Option::Some(v) => scalar_eq(v, literal),
            Option::None => false,
        },
        Pred::Le { field, literal } => match d.get(field.as_str()) {
            Option::Some(v) => {
                let rv = crate::order::rank_exec(v);
                let rl = crate::order::rank_exec(literal);
                rv == rl && value_le_exec(v, literal)
            },
            Option::None => false,
        },
        Pred::ElemMatch { field, inner, literal } => match d.get(field.as_str()) {
            Option::Some(arr) => match arr {
                Value::Arr(items) => {
                    let n = items.len();
                    let mut i: usize = 0;
                    proof {
                        lemma_dv_of_values(items@);
                    }
                    while i < n
                        invariant
                            n == items@.len(),
                            i <= n,
                            p.dv() == (PredV::ElemMatch {
                                field: field@,
                                inner: inner@,
                                literal: literal.dv(),
                            }),
                            lookup_dv(d.dv(), field@) == Some(arr.dv()),
                            arr.dv() == Vv::Arr(dv_of_values(items@)),
                            dv_of_values(items@).len() == n,
                            forall|j: int|
                                0 <= j < n ==> dv_of_values(items@)[j] == items@[j].dv(),
                            forall|j: int|
                                0 <= j < i ==> !elem_matches(
                                    #[trigger] dv_of_values(items@)[j],
                                    inner@,
                                    literal.dv(),
                                ),
                        decreases n - i,
                    {
                        let hit = match &items[i] {
                            Value::Obj(sub) => match sub.get(inner.as_str()) {
                                Option::Some(w) => scalar_eq(w, literal),
                                Option::None => false,
                            },
                            _ => false,
                        };
                        if hit {
                            proof {
                                assert(elem_matches(
                                    dv_of_values(items@)[i as int],
                                    inner@,
                                    literal.dv(),
                                ));
                                assert(lookup_dv(d.dv(), field@) == Some(arr.dv()));
                                assert(arr.dv() == Vv::Arr(dv_of_values(items@)));
                                assert(arr_has_match(arr.dv(), inner@, literal.dv())) by {
                                    assert(arr.dv() is Arr);
                                    assert(arr.dv()->Arr_0 == dv_of_values(items@));
                                    assert(0 <= (i as int) && (i as int)
                                        < arr.dv()->Arr_0.len() && elem_matches(
                                        arr.dv()->Arr_0[i as int],
                                        inner@,
                                        literal.dv(),
                                    ));
                                };
                                assert(pred_holds(p.dv(), d.dv())) by {
                                    assert(p.dv() == (PredV::ElemMatch {
                                        field: field@,
                                        inner: inner@,
                                        literal: literal.dv(),
                                    }));
                                    assert(lookup_dv(d.dv(), field@) == Some(arr.dv()));
                                };
                            }
                            return true;
                        }
                        i += 1;
                    }
                    proof {
                        assert(!arr_has_match(arr.dv(), inner@, literal.dv()));
                    }
                    false
                },
                _ => false,
            },
            Option::None => false,
        },
    }
}

/// Keeps the documents satisfying the predicate, as `match_docs`
/// describes.
pub fn apply_match(p: &Pred, docs: Vec<Document>) -> (out: Vec<Document>)
    ensures
        dvs_of(out@) == match_docs(p.dv(), dvs_of(docs@)),
{
    let ghost full = dvs_of(docs@);
    let mut rest = docs;
    let mut out: Vec<Document> = Vec::new();
    proof {
        lemma_dvs_of(rest@);
        assert(full.skip(0) =~= full);
        assert(dvs_of(out@) + match_docs(p.dv(), full.skip(0)) =~= match_docs(p.dv(), full));
    }
    let n = rest.len();
    let mut i: usize = 0;
    while i < n
        invariant
            n == full.len(),
            i <= n,
            dvs_of(rest@) =~= full.skip(i as int),
            match_docs(p.dv(), full) =~= dvs_of(out@) + match_docs(p.dv(), full.skip(i as int)),
        decreases n - i,
    {
        let ghost rest_before = rest@;
        let d = rest.remove(0);
        proof {
            lemma_dvs_of(rest_before);
            lemma_dvs_of(rest@);
            assert(dvs_of(rest@) =~= dvs_of(rest_before).drop_first());
            assert(dvs_of(rest@) =~= full.skip(i as int + 1));
            assert(d.dv() == full.skip(i as int)[0]);
        }
        if pred_holds_exec(p, &d) {
            let ghost out_before = out@;
            out.push(d);
            proof {
                lemma_dvs_of(out_before);
                lemma_dvs_of(out@);
                assert(dvs_of(out@) =~= dvs_of(out_before) + seq![d.dv()]);
                assert(match_docs(p.dv(), full.skip(i as int)) =~= seq![d.dv()] + match_docs(
                    p.dv(),
                    full.skip(i as int + 1),
                ));
                assert(match_docs(p.dv(), full) =~= dvs_of(out@) + match_docs(
                    p.dv(),
                    full.skip(i as int + 1),
                ));
            }
        } else {
            proof {
                assert(match_docs(p.dv(), full.skip(i as int)) =~= match_docs(
                    p.dv(),
                    full.skip(i as int + 1),
                ));
            }
        }
        i += 1;
    }
    proof {
        assert(full.skip(n as int) =~= Seq::<Dv>::empty());
        assert(dvs_of(out@) =~= match_docs(p.dv(), full));
    }
    out
}

/// Truncates the stream to its first `n` documents, as `limit_docs`
/// describes.
pub fn apply_limit(n: usize, docs: Vec<Document>) -> (out: Vec<Document>)
    ensures
        dvs_of(out@) == limit_docs(n as int, dvs_of(docs@)),
        dvs_of(out@).len() <= n as int,
{
    let ghost orig = docs@;
    let mut out = docs;
    proof {
        assert(out@ =~= orig.take(out@.len() as int));
    }
    while out.len() > n
        invariant
            out@.len() <= orig.len(),
            out@ =~= orig.take(out@.len() as int),
            n <= out@.len() || out@.len() == orig.len(),
        decreases out.len(),
    {
        let ghost before = out@;
        let _ = out.pop();
        proof {
            assert(out@ == before.subrange(0, before.len() - 1));
            assert forall|k: int| 0 <= k < out@.len() implies out@[k] == orig[k] by {
                assert(before[k] == orig.take(before.len() as int)[k]);
            }
            assert(out@ =~= orig.take(out@.len() as int));
        }
    }
    proof {
        lemma_dvs_of(orig);
        lemma_dvs_of(out@);
        if n as int <= orig.len() {
            assert(out@.len() == n);
            assert(dvs_of(out@) =~= dvs_of(orig).take(n as int));
        } else {
            assert(out@.len() == orig.len());
            assert(out@ =~= orig);
        }
    }
    out
}

/// A missing join key joins as null.
pub open spec fn key_or_null(k: Option<Vv>) -> Vv {
    match k {
        Option::Some(v) => v,
        Option::None => Vv::Null,
    }
}

/// The foreign documents whose `fkey` field equals `k` (a missing field
/// reading as null), in collection order, each wrapped as a sub-document.
pub open spec fn lookup_matches(foreign: Seq<Dv>, fkey: Seq<char>, k: Vv) -> Seq<Vv>
    decreases foreign.len(),
{
    if foreign.len() == 0 {
        Seq::empty()
    } else if scalar_eq_v(key_or_null(lookup_dv(foreign[0], fkey)), k) {
        seq![Vv::Obj(foreign[0])] + lookup_matches(foreign.drop_first(), fkey, k)
    } else {
        lookup_matches(foreign.drop_first(), fkey, k)
    }
}

/// One document after the lookup join: the matching foreign documents
/// attached as an array under `as_field`. Zero matches attach an empty
/// array, never an error.
pub open spec fn lookup_one(
    d: Dv,
    foreign: Seq<Dv>,
    lkey: Seq<char>,
    fkey: Seq<char>,
    as_field: Seq<char>,
) -> Dv {
    set_dv(d, as_field, Vv::Arr(lookup_matches(foreign, fkey, key_or_null(lookup_dv(d, lkey)))))
}

/// The lookup join across a stream, document by document.
pub open spec fn lookup_docs(
    s: Seq<Dv>,
    foreign: Seq<Dv>,
    lkey: Seq<char>,
    fkey: Seq<char>,
    as_field: Seq<char>,
) -> Seq<Dv>
    decreases s.len(),
{
    if s.len() == 0 {
        Seq::empty()
    } else {
        seq![lookup_one(s[0], foreign, lkey, fkey, as_field)] + lookup_docs(
            s.drop_first(),
            foreign,
            lkey,
            fkey,
            as_field,
        )
    }
}

/// The join is fan-in: it never changes the count of top-level documents.
pub proof fn lemma_lookup_docs_count(
    s: Seq<Dv>,
    foreign: Seq<Dv>,
    lkey: Seq<char>,
    fkey: Seq<char>,
    as_field: Seq<char>,
)
    ensures
        lookup_docs(s, foreign, lkey, fkey, as_field).len() == s.len(),
        forall|i: int|
            0 <= i < s.len() ==> lookup_docs(s, foreign, lkey, fkey, as_field)[i] == lookup_one(
                s[i],
                foreign,
                lkey,
                fkey,
                as_field,
            ),
    decreases s.len(),
{
    if s.len() > 0 {
        lemma_lookup_docs_count(s.drop_first(), foreign, lkey, fkey, as_field);
    }
}

/// Whether a foreign document's key value equals the local key value,
/// missing fields reading as null.
fn join_keys_match(fv: Option<&Value>, local: Option<&Value>) -> (r: bool)
    ensures
        r == scalar_eq_v(
            match fv {
                Option::Some(v) => v.dv(),
                Option::None => Vv::Null,
            },
            match local {
                Option::Some(v) => v.dv(),
                Option::None => Vv::Null,
            },
        ),
{
    match (fv, local) {
        (Option::None, Option::None) => true,
        (Option::None, Option::Some(v)) => scalar_eq(&Value::Null, v),
        (Option::Some(v), Option::None) => scalar_eq(v, &Value::Null),
        (Option::Some(a), Option::Some(b)) => scalar_eq(a, b),
    }
}

/// Attaches to each document the matching foreign documents, as
/// `lookup_docs` describes; the count of documents never changes.
pub fn apply_lookup(
    docs: Vec<Document>,
    foreign: &Vec<Document>,
    local_field: &str,
    foreign_field: &str,
    as_field: &str,
) -> (out: Vec<Document>)
    ensures
        dvs_of(out@) == lookup_docs(
            dvs_of(docs@),
            dvs_of(foreign@),
            local_field@,
            foreign_field@,
            as_field@,
        ),
        out@.len() == docs@.len(),
{
    let ghost full = dvs_of(docs@);
    let ghost fdv = dvs_of(foreign@);
    let mut rest = docs;
    let mut out: Vec<Document> = Vec::new();
    let n = rest.len();
    let mut i: usize = 0;
    proof {
        lemma_dvs_of(rest@);
        lemma_dvs_of(foreign@);
        assert(full.skip(0) =~= full);
        assert(dvs_of(out@) + lookup_docs(full.skip(0), fdv, local_field@, foreign_field@,
        as_field@) =~= lookup_docs(full, fdv, local_field@, foreign_field@, as_field@));
    }
    while i < n
        invariant
            n == full.len(),
            i <= n,
            out@.len() == i,
            dvs_of(rest@) =~= full.skip(i as int),
            fdv == dvs_of(foreign@),
            fdv.len() == foreign@.len(),
            forall|j: int| 0 <= j < fdv.len() ==> fdv[j] == foreign@[j].dv(),
            lookup_docs(full, fdv, local_field@, foreign_field@, as_field@) =~= dvs_of(out@)
                + lookup_docs(full.skip(i as int), fdv, local_field@, foreign_field@, as_field@),
        decreases n - i,
    {
        let ghost rest_before = rest@;
        let mut d = rest.remove(0);
        proof {
            lemma_dvs_of(rest_before);
            lemma_dvs_of(rest@);
            assert(dvs_of(rest@) =~= dvs_of(rest_before).drop_first());
            assert(dvs_of(rest@) =~= full.skip(i as int + 1));
            assert(d.dv() == full.skip(i as int)[0]);
        }
        let ghost d0 = d.dv();
        let local = d.get(local_field);
        let ghost k = key_or_null(lookup_dv(d0, local_field@));
        proof {
            assert(k == match local {
                Option::Some(v) => v.dv(),
                Option::None => Vv::Null,
            });
        }
        let mut matches: Vec<Value> = Vec::new();
        let m = foreign.len();
        let mut j: usize = 0;
        proof {
            lemma_dv_of_values(matches@);
            assert(fdv.skip(0) =~= fdv);
            assert(dv_of_values(matches@) + lookup_matches(fdv.skip(0), foreign_field@, k)
                =~= lookup_matches(fdv, foreign_field@, k));
        }
        while j < m
            invariant
                m == foreign@.len(),
                j <= m,
                fdv.len() == m,
                forall|jj: int| 0 <= jj < m ==> fdv[jj] == foreign@[jj].dv(),
                k == (match local {
                    Option::Some(v) => v.dv(),
                    Option::None => Vv::Null,
                }),
                lookup_matches(fdv, foreign_field@, k) =~= dv_of_values(matches@)
                    + lookup_matches(fdv.skip(j as int), foreign_field@, k),
            decreases m - j,
        {
            let fv = foreign[j].get(foreign_field);
            proof {
                assert(fdv.skip(j as int)[0] == foreign@[j as int].dv());
                assert(fdv.skip(j as int).drop_first() =~= fdv.skip(j as int + 1));
            }
            if join_keys_match(fv, local) {
                let ghost matches_before = matches@;
                matches.push(Value::Obj(foreign[j].deep_clone()));
                proof {
                    lemma_dv_of_values(matches_before);
                    lemma_dv_of_values(matches@);
                    assert(dv_of_values(matches@) =~= dv_of_values(matches_before) + seq![
                        Vv::Obj(foreign@[j as int].dv()),
                    ]);
                    assert(lookup_matches(fdv.skip(j as int), foreign_field@, k) =~= seq![
                        Vv::Obj(fdv.skip(j as int)[0]),
                    ] + lookup_matches(fdv.skip(j as int + 1), foreign_field@, k));
                }
            } else {
                proof {
                    assert(lookup_matches(fdv.skip(j as int), foreign_field@, k)
                        =~= lookup_matches(fdv.skip(j as int + 1), foreign_field@, k));
                }
            }
            j += 1;
        }
        proof {
            assert(fdv.skip(m as int) =~= Seq::<Dv>::empty());
            assert(lookup_matches(fdv, foreign_field@, k) =~= dv_of_values(matches@));
        }
        d.set(as_field.to_owned(), Value::Arr(matches));
        proof {
            assert(d.dv() == lookup_one(d0, fdv, local_field@, foreign_field@, as_field@));
        }
        let ghost out_before = out@;
        out.push(d);
        proof {
            lemma_dvs_of(out_before);
            lemma_dvs_of(out@);
            assert(dvs_of(out@) =~= dvs_of(out_before) + seq![d.dv()]);
            assert(full.skip(i as int).drop_first() =~= full.skip(i as int + 1));
            assert(lookup_docs(full.skip(i as int), fdv, local_field@, foreign_field@, as_field@)
                =~= seq![lookup_one(full.skip(i as int)[0], fdv, local_field@, foreign_field@,
            as_field@)] + lookup_docs(full.skip(i as int + 1), fdv, local_field@, foreign_field@,
            as_field@));
        }
        i += 1;
    }
    proof {
        assert(full.skip(n as int) =~= Seq::<Dv>::empty());
        assert(dvs_of(out@) =~= lookup_docs(full, fdv, local_field@, foreign_field@, as_field@));
        lemma_dvs_of(out@);
        lemma_lookup_docs_count(full, fdv, local_field@, foreign_field@, as_field@);
    }
    out
}

/// The numeric entry an array element contributes to an average: the
/// value of the sub-document's `item` field when that is a number;
/// nothing otherwise.
pub open spec fn entry_of(v: Vv, item: Seq<char>) -> Option<Rational> {
    match v {
        Vv::Obj(sub) => match lookup_dv(sub, item) {
            Option::Some(w) => match w {
                Vv::Num(q) => Some(q),
                _ => None,
            },
            Option::None => None,
        },
        _ => None,
    }
}

/// The numeric entries of an array, in order; non-numeric elements are
/// passed over.
pub open spec fn entries_of(items: Seq<Vv>, item: Seq<char>) -> Seq<Rational>
    decreases items.len(),
{
    if items.len() == 0 {
        Seq::empty()
    } else {
        let rest = entries_of(items.drop_first(), item);
        match entry_of(items[0], item) {
            Option::Some(q) => seq![q] + rest,
            Option::None => rest,
        }
    }
}

/// The value a derived-field expression takes on a document: null when
/// the source field is missing or not an array or the array has no
/// numeric entries; `None` only on numeric overflow.
pub open spec fn avg_value(d: Dv, source: Seq<char>, item: Seq<char>, rounded: bool) -> Option<
    Vv,
> {
    match lookup_dv(d, source) {
        Option::Some(v) => if v is Arr {
            match mean_spec(entries_of(v->Arr_0, item)) {
                Option::None => None,
                Option::Some(Option::None) => Some(Vv::Null),
                Option::Some(Option::Some(m)) => if rounded {
                    match round_half_spec(m) {
                        Option::None => None,
                        Option::Some(r) => Some(Vv::Num(r)),
                    }
                } else {
                    Some(Vv::Num(m))
                },
            }
        } else {
            Some(Vv::Null)
        },
        Option::None => Some(Vv::Null),
    }
}

/// The value of a derived-field expression on a document.
pub open spec fn expr_value(e: ExprV, d: Dv) -> Option<Vv> {
    match e {
        ExprV::Avg { source, item } => avg_value(d, source, item, false),
        ExprV::AvgRounded { source, item } => avg_value(d, source, item, true),
    }
}

/// One document after the add-field stage: the computed value stored
/// under `field`, overwriting any field of that name.
pub open spec fn add_field_one(field: Seq<char>, e: ExprV, d: Dv) -> Option<Dv> {
    match expr_value(e, d) {
        Option::None => None,
        Option::Some(v) => Some(set_dv(d, field, v)),
    }
}

/// The add-field stage across a stream; `None` as soon as one document
/// overflows.
pub open spec fn add_field_docs(field: Seq<char>, e: ExprV, s: Seq<Dv>) -> Option<Seq<Dv>>
    decreases s.len(),
{
    if s.len() == 0 {
        Some(Seq::empty())
    } else {
        match add_field_one(field, e, s[0]) {
            Option::None => None,
            Option::Some(d2) => match add_field_docs(field, e, s.drop_first()) {
                Option::None => None,
                Option::Some(t) => Some(seq![d2] + t),
            },
        }
    }
}

/// The numeric entries of the array, as `entries_of` describes.
fn entries_exec(items: &Vec<Value>, item: &str) -> (out: Vec<Rational>)
    ensures
        out@ == entries_of(dv_of_values(items@), item@),
{
    let ghost idv = dv_of_values(items@);
    let mut out: Vec<Rational> = Vec::new();
    let n = items.len();
    let mut i: usize = 0;
    proof {
        lemma_dv_of_values(items@);
        assert(idv.skip(0) =~= idv);
        assert(entries_of(idv, item@) =~= out@ + entries_of(idv.skip(0), item@));
    }
    while i < n
        invariant
            n == items@.len(),
            i <= n,
            idv == dv_of_values(items@),
            idv.len() == n,
            forall|j: int| 0 <= j < n ==> idv[j] == items@[j].dv(),
            entries_of(idv, item@) =~= out@ + entries_of(idv.skip(i as int), item@),
        decreases n - i,
    {
        proof {
            assert(idv.skip(i as int)[0] == idv[i as int]);
            assert(idv.skip(i as int).drop_first() =~= idv.skip(i as int + 1));
        }
        match &items[i] {
            Value::Obj(sub) => match sub.get(item) {
                Option::Some(w) => match w {
                    Value::Num(q) => {
                        out.push(*q);
                        proof {
                            assert(entry_of(idv[i as int], item@) == Some(*q));
                        }
                    },
                    _ => {
                        proof {
                            assert(entry_of(idv[i as int], item@) is None);
                        }
                    },
                },
                Option::None => {
                    proof {
                        assert(entry_of(idv[i as int], item@) is None);
                    }
                },
            },
            _ => {
                proof {
                    assert(entry_of(idv[i as int], item@) is None);
                }
            },
        }
        i += 1;
    }
    proof {
        assert(idv.skip(n as int) =~= Seq::<Vv>::empty());
        assert(out@ =~= entries_of(idv, item@));
    }
    out
}

/// Computes a derived-field expression; `None` only on numeric overflow.
fn compute_expr(e: &Expr, d: &Document) -> (r: Option<Value>)
    ensures
        match expr_value(e.dv(), d.dv()) {
            Option::Some(v) => r is Some && r->0.dv() == v,
            Option::None => r is None,
        },
{
    let (source, item, rounded) = match e {
        Expr::Avg { source, item } => (source, item, false),
        Expr::AvgRounded { source, item } => (source, item, true),
    };
    match d.get(source.as_str()) {
        Option::Some(v) => match v {
            Value::Arr(items) => {
                let es = entries_exec(items, item.as_str());
                match mean(&es) {
                    Option::None => None,
                    Option::Some(Option::None) => Some(Value::Null),
                    Option::Some(Option::Some(m)) => {
                        if rounded {
                            match round_half(&m) {
                                Option::None => None,
                                Option::Some(r) => Some(Value::Num(r)),
                            }
                        } else {
                            Some(Value::Num(m))
                        }
                    },
                }
            },
            _ => Some(Value::Null),
        },
        Option::None => Some(Value::Null),
    }
}

/// An error raised while a pipeline is built or run.
#[derive(Debug)]
pub enum PipelineError {
    /// A stage references an unsupported expression/operator combination;
    /// `stage_index` points at the offending stage.
    Configuration { stage_index: usize },
    /// A computed field's exact value left the numeric representation.
    NumericOverflow,
}

/// Stores the computed value in each document, as `add_field_docs`
/// describes; overflow on any document fails the whole stage.
pub fn apply_add_field(field: &str, e: &Expr, docs: Vec<Document>) -> (r: Result<
    Vec<Document>,
    PipelineError,
>)
    ensures
        match add_field_docs(field@, e.dv(), dvs_of(docs@)) {
            Option::Some(t) => r is Ok && dvs_of(r->Ok_0@) == t,
            Option::None => r == Result::<Vec<Document>, PipelineError>::Err(
                PipelineError::NumericOverflow,
            ),
        },
{
    let ghost full = dvs_of(docs@);
    let mut rest = docs;
    let mut out: Vec<Document> = Vec::new();
    let n = rest.len();
    let mut i: usize = 0;
    proof {
        lemma_dvs_of(rest@);
        assert(full.skip(0) =~= full);
    }
    #[verifier::loop_isolation(false)]
    while i < n
        invariant
            n == full.len(),
            i <= n,
            dvs_of(rest@) =~= full.skip(i as int),
            add_field_docs(field@, e.dv(), full) == (match add_field_docs(
                field@,
                e.dv(),
                full.skip(i as int),
            ) {
                Option::None => Option::<Seq<Dv>>::None,
                Option::Some(t) => Option::Some(dvs_of(out@) + t),
            }),
        decreases n - i,
    {
        let ghost rest_before = rest@;
        let mut d = rest.remove(0);
        proof {
            lemma_dvs_of(rest_before);
            lemma_dvs_of(rest@);
            assert(dvs_of(rest@) =~= dvs_of(rest_before).drop_first());
            assert(dvs_of(rest@) =~= full.skip(i as int + 1));
            assert(d.dv() == full.skip(i as int)[0]);
            assert(full.skip(i as int).drop_first() =~= full.skip(i as int + 1));
        }
        let ghost d0 = d.dv();
        match compute_expr(e, &d) {
            Option::None => {
                proof {
                    assert(add_field_one(field@, e.dv(), d0) is None);
                    assert(add_field_docs(field@, e.dv(), full.skip(i as int)) is None);
                    assert(add_field_docs(field@, e.dv(), full) is None);
                }
                return Err(PipelineError::NumericOverflow);
            },
            Option::Some(v) => {
                let ghost vv = v.dv();
                d.set(field.to_owned(), v);
                proof {
                    assert(d.dv() == set_dv(d0, field@, vv));
                    assert(add_field_one(field@, e.dv(), d0) == Some(d.dv()));
                }
                let ghost out_before = out@;
                out.push(d);
                proof {
                    lemma_dvs_of(out_before);
                    lemma_dvs_of(out@);
                    assert(dvs_of(out@) =~= dvs_of(out_before) + seq![d.dv()]);
                    match add_field_docs(field@, e.dv(), full.skip(i as int + 1)) {
                        Option::None => {},
                        Option::Some(t) => {
                            assert(dvs_of(out_before) + (seq![d.dv()] + t) =~= dvs_of(out@) + t);
                        },
                    }
                }
            },
        }
        i += 1;
    }
    proof {
        assert(full.skip(n as int) =~= Seq::<Dv>::empty());
        assert(add_field_docs(field@, e.dv(), full.skip(n as int)) == Some(Seq::<Dv>::empty()));
        match add_field_docs(field@, e.dv(), full) {
            Option::None => {},
            Option::Some(t) => {
                assert(t =~= dvs_of(out@) + Seq::<Dv>::empty());
                assert(t =~= dvs_of(out@));
            },
        }
    }
    Ok(out)
}

/// A snapshot of the store: named collections of documents, as the
/// caller fetched them. The pipeline reads it; it never writes it.
pub struct Store {
    pub collections: Vec<(String, Vec<Document>)>,
}

/// The view of a collection list.
pub open spec fn sv_of(s: Seq<(String, Vec<Document>)>) -> Seq<(Seq<char>, Seq<Dv>)>
    decreases s,
{
    if s.len() == 0 {
        Seq::empty()
    } else {
        seq![(s[0].0@, dvs_of(s[0].1@))] + sv_of(s.drop_first())
    }
}

/// `sv_of` maps the list pointwise.
pub proof fn lemma_sv_of(s: Seq<(String, Vec<Document>)>)
    ensures
        sv_of(s).len() == s.len(),
        forall|i: int| 0 <= i < s.len() ==> sv_of(s)[i] == (s[i].0@, dvs_of(s[i].1@)),
    decreases s,
{
    if s.len() > 0 {
        lemma_sv_of(s.drop_first());
    }
}

/// The documents of the collection named `name`: the first collection of
/// that name, or nothing when the store has none.
pub open spec fn store_docs(st: Seq<(Seq<char>, Seq<Dv>)>, name: Seq<char>) -> Seq<Dv>
    decreases st.len(),
{
    if st.len() == 0 {
        Seq::empty()
    } else if st[0].0 == name {
        st[0].1
    } else {
        store_docs(st.drop_first(), name)
    }
}

impl Store {
    /// The view of the store.
    pub open spec fn sv(self) -> Seq<(Seq<char>, Seq<Dv>)> {
        sv_of(self.collections@)
    }

    /// A store with no collections.
    pub fn new() -> (st: Store)
        ensures
            st.sv() == Seq::<(Seq<char>, Seq<Dv>)>::empty(),
    {
        Store { collections: Vec::new() }
    }

    /// Adds a collection snapshot under `name`.
    pub fn add_collection(&mut self, name: String, docs: Vec<Document>)
        ensures
            final(self).sv() =~= old(self).sv().push((name@, dvs_of(docs@))),
    {
        let ghost before = self.collections@;
        self.collections.push((name, docs));
        proof {
            lemma_sv_of(before);
            lemma_sv_of(self.collections@);
        }
    }

    /// The collection named `name`, when the store holds one.
    pub fn find_collection<'a>(&'a self, name: &str) -> (r: Option<&'a Vec<Document>>)
        ensures
            match r {
                Option::Some(v) => store_docs(self.sv(), name@) == dvs_of(v@),
                Option::None => store_docs(self.sv(), name@) == Seq::<Dv>::empty(),
            },
    {
        let n = self.collections.len();
        let mut i: usize = 0;
        proof {
            lemma_sv_of(self.collections@);
        }
        while i < n
            invariant
                n == self.collections@.len(),
                i <= n,
                sv_of(self.collections@).len() == n,
                forall|j: int|
                    0 <= j < n ==> sv_of(self.collections@)[j] == (
                    self.collections@[j].0@,
                    dvs_of(self.collections@[j].1@),
                ),
                forall|j: int| 0 <= j < i ==> self.collections@[j].0@ != name@,
            decreases n - i,
        {
            if crate::document::str_eq(self.collections[i].0.as_str(), name) {
                proof {
                    lemma_store_first(self.sv(), name@, i as int);
                }
                return Some(&self.collections[i].1);
            }
            i += 1;
        }
        proof {
            lemma_store_absent(self.sv(), name@);
        }
        None
    }
}

/// When the first `i` collections miss the name and collection `i`
/// carries it, the store lookup returns collection `i`.
proof fn lemma_store_first(st: Seq<(Seq<char>, Seq<Dv>)>, name: Seq<char>, i: int)
    requires
        0 <= i < st.len(),
        st[i].0 == name,
        forall|j: int| 0 <= j < i ==> st[j].0 != name,
    ensures
        store_docs(st, name) == st[i].1,
    decreases i,
{
    if i > 0 {
        lemma_store_first(st.drop_first(), name, i - 1);
    }
}

/// When no collection carries the name, the store lookup is empty.
proof fn lemma_store_absent(st: Seq<(Seq<char>, Seq<Dv>)>, name: Seq<char>)
    requires
        forall|j: int| 0 <= j < st.len() ==> st[j].0 != name,
    ensures
        store_docs(st, name) == Seq::<Dv>::empty(),
    decreases st,
{
    if st.len() > 0 {
        lemma_store_absent(st.drop_first(), name);
    }
}

/// The stream one stage turns `s` into; `None` only on numeric overflow.
pub open spec fn apply_stage_spec(
    st: StageV,
    store: Seq<(Seq<char>, Seq<Dv>)>,
    s: Seq<Dv>,
) -> Option<Seq<Dv>> {
    match st {
        StageV::Match(p) => Some(match_docs(p, s)),
        StageV::Sort { field, ascending } => Some(sort_docs(field, ascending, s)),
        StageV::Lookup { from, local_field, foreign_field, as_field } => Some(
            lookup_docs(s, store_docs(store, from), local_field, foreign_field, as_field),
        ),
        StageV::AddField { field, expr } => add_field_docs(field, expr, s),
        StageV::Limit(n) => Some(limit_docs(n, s)),
    }
}

/// The stream a whole pipeline turns `s` into, stage by stage in the
/// given order; the empty pipeline is the identity.
pub open spec fn run_stages_spec(
    stages: Seq<StageV>,
    store: Seq<(Seq<char>, Seq<Dv>)>,
    s: Seq<Dv>,
) -> Option<Seq<Dv>>
    decreases stages.len(),
{
    if stages.len() == 0 {
        Some(s)
    } else {
        match apply_stage_spec(stages[0], store, s) {
            Option::None => None,
            Option::Some(t) => run_stages_spec(stages.drop_first(), store, t),
        }
    }
}

/// An empty pipeline returns the source documents exactly, unmodified
/// and in their given order.
pub proof fn lemma_empty_pipeline_identity(store: Seq<(Seq<char>, Seq<Dv>)>, s: Seq<Dv>)
    ensures
        run_stages_spec(Seq::empty(), store, s) == Some(s),
{
}

/// Running `stages` then one more stage equals applying that stage to
/// what `stages` produced.
pub proof fn lemma_run_snoc(
    stages: Seq<StageV>,
    last: StageV,
    store: Seq<(Seq<char>, Seq<Dv>)>,
    s: Seq<Dv>,
)
    ensures
        run_stages_spec(stages.push(last), store, s) == (match run_stages_spec(
            stages,
            store,
            s,
        ) {
            Option::None => Option::<Seq<Dv>>::None,
            Option::Some(t) => apply_stage_spec(last, store, t),
        }),
    decreases stages.len(),
{
    if stages.len() == 0 {
        assert(stages.push(last).drop_first() =~= Seq::<StageV>::empty());
        assert(stages.push(last)[0] == last);
        match apply_stage_spec(last, store, s) {
            Option::None => {
                assert(run_stages_spec(stages.push(last), store, s) is None);
            },
            Option::Some(t) => {
                assert(run_stages_spec(Seq::<StageV>::empty(), store, t) == Some(t));
                assert(run_stages_spec(stages.push(last).drop_first(), store, t) == Some(t));
                assert(run_stages_spec(stages.push(last), store, s) == Some(t));
            },
        }
    } else {
        assert(stages.push(last)[0] == stages[0]);
        assert(stages.push(last).drop_first() =~= stages.drop_first().push(last));
        match apply_stage_spec(stages[0], store, s) {
            Option::None => {},
            Option::Some(t) => {
                lemma_run_snoc(stages.drop_first(), last, store, t);
            },
        }
    }
}

/// A pipeline whose last stage is `Limit(n)` yields at most `n`
/// documents, whatever came before; `Limit(0)` yields none.
pub proof fn lemma_limit_bounds_pipeline(
    stages: Seq<StageV>,
    n: int,
    store: Seq<(Seq<char>, Seq<Dv>)>,
    s: Seq<Dv>,
)
    requires
        n >= 0,
    ensures
        run_stages_spec(stages.push(StageV::Limit(n)), store, s) matches Some(t) ==> t.len()
            <= n,
        n == 0 ==> (run_stages_spec(stages.push(StageV::Limit(n)), store, s) matches Some(t)
            ==> t.len() == 0),
{
    lemma_run_snoc(stages, StageV::Limit(n), store, s);
}

/// A lookup stage never changes the count of top-level documents.
pub proof fn lemma_lookup_stage_count(
    from: Seq<char>,
    local_field: Seq<char>,
    foreign_field: Seq<char>,
    as_field: Seq<char>,
    store: Seq<(Seq<char>, Seq<Dv>)>,
    s: Seq<Dv>,
)
    ensures
        apply_stage_spec(
            StageV::Lookup { from, local_field, foreign_field, as_field },
            store,
            s,
        ) matches Some(t) && t.len() == s.len(),
{
    lemma_lookup_docs_count(s, store_docs(store, from), local_field, foreign_field, as_field);
}

/// Runs the stages in order over the source documents, as
/// `run_stages_spec` describes.
#[verifier::rlimit(100)]
pub fn run_stages(stages: &Vec<Stage>, store: &Store, source: Vec<Document>) -> (r: Result<
    Vec<Document>,
    PipelineError,
>)
    ensures
        match run_stages_spec(stages_dv(stages@), store.sv(), dvs_of(source@)) {
            Option::Some(t) => r is Ok && dvs_of(r->Ok_0@) == t,
            Option::None => r == Result::<Vec<Document>, PipelineError>::Err(
                PipelineError::NumericOverflow,
            ),
        },
{
    let ghost all = stages_dv(stages@);
    let mut cur = source;
    let n = stages.len();
    let mut i: usize = 0;
    proof {
        lemma_stages_dv(stages@);
        assert(all.skip(0) =~= all);
    }
    #[verifier::loop_isolation(false)]
    while i < n
        invariant
            n == stages@.len(),
            i <= n,
            run_stages_spec(all, store.sv(), dvs_of(source@)) == run_stages_spec(
                all.skip(i as int),
                store.sv(),
                dvs_of(cur@),
            ),
        decreases n - i,
    {
        proof {
            assert(all.skip(i as int)[0] == stages@[i as int].dv());
            assert(all.skip(i as int).drop_first() =~= all.skip(i as int + 1));
        }
        match &stages[i] {
            Stage::Match(p) => {
                cur = apply_match(p, cur);
            },
            Stage::Sort { field, ascending } => {
                cur = apply_sort(field.as_str(), *ascending, cur);
            },
            Stage::Lookup { from, local_field, foreign_field, as_field } => {
                let empty_foreign: Vec<Document> = Vec::new();
                match store.find_collection(from.as_str()) {
                    Option::Some(foreign) => {
                        cur = apply_lookup(
                            cur,
                            foreign,
                            local_field.as_str(),
                            foreign_field.as_str(),
                            as_field.as_str(),
                        );
                    },
                    Option::None => {
                        proof {
                            lemma_dvs_of(empty_foreign@);
                        }
                        cur = apply_lookup(
                            cur,
                            &empty_foreign,
                            local_field.as_str(),
                            foreign_field.as_str(),
                            as_field.as_str(),
                        );
                    },
                }
            },
            Stage::AddField { field, expr } => {
                match apply_add_field(field.as_str(), expr, cur) {
                    Result::Ok(v) => {
                        cur = v;
                    },
                    Result::Err(e) => {
                        proof {
                            assert(run_stages_spec(all.skip(i as int), store.sv(), dvs_of(
                                cur@,
                            )) is None);
                        }
                        return Err(e);
                    },
                }
            },
            Stage::Limit(k) => {
                cur = apply_limit(*k, cur);
            },
        }
        i += 1;
    }
    proof {
        assert(all.skip(n as int) =~= Seq::<StageV>::empty());
    }
    Ok(cur)
}

} // verus!
