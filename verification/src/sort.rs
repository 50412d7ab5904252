//! The sort stage: a stable insertion sort of a document stream by one
//! field, ascending or descending.

use vstd::prelude::*;
use crate::document::{dvs_of, lemma_dvs_of, lookup_dv, Document, Dv};
use crate::order::{key_le, value_le_exec};

verus! {

/// Whether `a` comes at or before `b` under a sort on `field` in the given
/// direction.
pub open spec fn stage_le(field: Seq<char>, asc: bool, a: Dv, b: Dv) -> bool {
    if asc {
        key_le(lookup_dv(a, field), lookup_dv(b, field))
    } else {
        key_le(lookup_dv(b, field), lookup_dv(a, field))
    }
}

/// `d` placed after every document of `s` that comes at or before it; `s`
/// is expected sorted. Placing after ties is what keeps the sort stable.
pub open spec fn insert_sorted(field: Seq<char>, asc: bool, d: Dv, s: Seq<Dv>) -> Seq<Dv>
    decreases s.len(),
{
    if s.len() == 0 {
        seq![d]
    } else if stage_le(field, asc, s[0], d) {
        seq![s[0]] + insert_sorted(field, asc, d, s.drop_first())
    } else {
        seq![d] + s
    }
}

/// The documents of `s` sorted stably by `field`: each document in turn is
/// inserted after its predecessors with keys at or before its own.
pub open spec fn sort_docs(field: Seq<char>, asc: bool, s: Seq<Dv>) -> Seq<Dv>
    decreases s.len(),
{
    if s.len() == 0 {
        Seq::empty()
    } else {
        insert_sorted(field, asc, s.last(), sort_docs(field, asc, s.drop_last()))
    }
}

/// Sorting neither adds nor drops documents.
pub proof fn lemma_insert_sorted_len(field: Seq<char>, asc: bool, d: Dv, s: Seq<Dv>)
    ensures
        insert_sorted(field, asc, d, s).len() == s.len() + 1,
    decreases s.len(),
{
    if s.len() > 0 && stage_le(field, asc, s[0], d) {
        lemma_insert_sorted_len(field, asc, d, s.drop_first());
    }
}

/// Sorting neither adds nor drops documents.
pub proof fn lemma_sort_docs_len(field: Seq<char>, asc: bool, s: Seq<Dv>)
    ensures
        sort_docs(field, asc, s).len() == s.len(),
    decreases s.len(),
{
    if s.len() > 0 {
        lemma_sort_docs_len(field, asc, s.drop_last());
        lemma_insert_sorted_len(field, asc, s.last(), sort_docs(field, asc, s.drop_last()));
    }
}

/// When the first `j` documents of `s` come at or before `d` and the one
/// at `j` (if any) does not, `d` lands at position `j`.
proof fn lemma_insert_at(field: Seq<char>, asc: bool, d: Dv, s: Seq<Dv>, j: int)
    requires
        0 <= j <= s.len(),
        forall|jj: int| 0 <= jj < j ==> stage_le(field, asc, #[trigger] s[jj], d),
        j == s.len() || !stage_le(field, asc, s[j], d),
    ensures
        insert_sorted(field, asc, d, s) =~= s.subrange(0, j) + seq![d] + s.skip(j),
    decreases j,
{
    if j == 0 {
        if s.len() == 0 {
            assert(insert_sorted(field, asc, d, s) =~= seq![d]);
        }
    } else {
        lemma_insert_at(field, asc, d, s.drop_first(), j - 1);
        assert(s.drop_first().subrange(0, j - 1) =~= s.subrange(1, j));
        assert(s.drop_first().skip(j - 1) =~= s.skip(j));
    }
}

/// Whether `a`'s sort key comes at or before `b`'s on `field`.
pub fn doc_key_le(a: &Document, b: &Document, field: &str) -> (r: bool)
    ensures
        r == key_le(lookup_dv(a.dv(), field@), lookup_dv(b.dv(), field@)),
{
    match (a.get(field), b.get(field)) {
        (Option::None, _) => true,
        (Option::Some(_), Option::None) => false,
        (Option::Some(x), Option::Some(y)) => value_le_exec(x, y),
    }
}

/// Sorts the documents stably by `field`, as `sort_docs` describes.
pub fn apply_sort(field: &str, ascending: bool, docs: Vec<Document>) -> (out: Vec<Document>)
    ensures
        dvs_of(out@) == sort_docs(field@, ascending, dvs_of(docs@)),
{
    let ghost orig = docs@;
    let mut rest = docs;
    let mut out: Vec<Document> = Vec::new();
    let mut i: usize = 0;
    let n = rest.len();
    proof {
        lemma_dvs_of(orig);
        assert(orig.take(0) =~= Seq::<Document>::empty());
    }
    while i < n
        invariant
            n == orig.len(),
            i <= n,
            rest@ =~= orig.skip(i as int),
            dvs_of(out@) == sort_docs(field@, ascending, dvs_of(orig.take(i as int))),
        decreases n - i,
    {
        let d = rest.remove(0);
        proof {
            assert(rest@ =~= orig.skip(i as int + 1));
            assert(d == orig[i as int]);
        }
        // find the insertion point: past every element at or before d
        let mut j: usize = 0;
        let m = out.len();
        while j < m && doc_key_le_dir(&out[j], &d, field, ascending)
            invariant
                m == out.len(),
                j <= m,
                forall|jj: int|
                    0 <= jj < j ==> stage_le(field@, ascending, #[trigger] out@[jj].dv(), d.dv()),
            decreases m - j,
        {
            j += 1;
        }
        let ghost out_before = out@;
        out.insert(j, d);
        proof {
            lemma_dvs_of(out_before);
            lemma_dvs_of(out@);
            lemma_insert_at(
                field@,
                ascending,
                d.dv(),
                dvs_of(out_before),
                j as int,
            );
            assert(dvs_of(out@) =~= dvs_of(out_before).subrange(0, j as int) + seq![d.dv()]
                + dvs_of(out_before).skip(j as int));
            // the new prefix is one document longer
            lemma_dvs_of(orig.take(i as int));
            lemma_dvs_of(orig.take(i as int + 1));
            assert(dvs_of(orig.take(i as int + 1)).drop_last() =~= dvs_of(orig.take(i as int)));
            assert(dvs_of(orig.take(i as int + 1)).last() == d.dv());
            assert(dvs_of(orig.take(i as int + 1)).len() == i + 1 > 0);
        }
        i += 1;
    }
    proof {
        assert(orig.take(n as int) =~= orig);
    }
    out
}

/// `doc_key_le` in the given direction.
fn doc_key_le_dir(a: &Document, b: &Document, field: &str, asc: bool) -> (r: bool)
    ensures
        r == stage_le(field@, asc, a.dv(), b.dv()),
{
    if asc {
        doc_key_le(a, b, field)
    } else {
        doc_key_le(b, a, field)
    }
}

/// Whether `s` is sorted by `field` in the given direction.
pub open spec fn sorted_by(field: Seq<char>, asc: bool, s: Seq<Dv>) -> bool {
    forall|i: int, j: int|
        0 <= i < j < s.len() ==> stage_le(field, asc, #[trigger] s[i], #[trigger] s[j])
}

/// The sort order is total over documents.
proof fn lemma_stage_le_total(field: Seq<char>, asc: bool, a: Dv, b: Dv)
    ensures
        stage_le(field, asc, a, b) || stage_le(field, asc, b, a),
{
    crate::order::lemma_key_le_total(lookup_dv(a, field), lookup_dv(b, field));
}

/// The sort order is transitive over documents.
proof fn lemma_stage_le_trans(field: Seq<char>, asc: bool, a: Dv, b: Dv, c: Dv)
    requires
        stage_le(field, asc, a, b),
        stage_le(field, asc, b, c),
    ensures
        stage_le(field, asc, a, c),
{
    if asc {
        crate::order::lemma_key_le_trans(
            lookup_dv(a, field),
            lookup_dv(b, field),
            lookup_dv(c, field),
        );
    } else {
        crate::order::lemma_key_le_trans(
            lookup_dv(c, field),
            lookup_dv(b, field),
            lookup_dv(a, field),
        );
    }
}

/// Inserting into a sorted sequence keeps it sorted.
proof fn lemma_insert_sorted_sorted(field: Seq<char>, asc: bool, d: Dv, s: Seq<Dv>)
    requires
        sorted_by(field, asc, s),
    ensures
        sorted_by(field, asc, insert_sorted(field, asc, d, s)),
    decreases s.len(),
{
    lemma_insert_sorted_len(field, asc, d, s);
    if s.len() == 0 {
    } else if stage_le(field, asc, s[0], d) {
        assert(forall|i: int, j: int|
            0 <= i < j < s.drop_first().len() ==> stage_le(
                field,
                asc,
                #[trigger] s.drop_first()[i],
                #[trigger] s.drop_first()[j],
            ));
        lemma_insert_sorted_sorted(field, asc, d, s.drop_first());
        let t = insert_sorted(field, asc, d, s.drop_first());
        let r = insert_sorted(field, asc, d, s);
        assert(r =~= seq![s[0]] + t);
        // s[0] comes at or before everything in t: the old elements by
        // sortedness, and d because s[0] comes at or before d
        assert forall|j: int| 1 <= j < r.len() implies stage_le(field, asc, r[0], r[j]) by {
            lemma_insert_sorted_membership(field, asc, d, s.drop_first(), j - 1);
            if t[j - 1] == d {
                assert(stage_le(field, asc, s[0], d));
            } else {
                assert(exists|k: int|
                    0 <= k < s.drop_first().len() && s.drop_first()[k] == t[j - 1]);
                let k = choose|k: int|
                    0 <= k < s.drop_first().len() && s.drop_first()[k] == t[j - 1];
                assert(stage_le(field, asc, s[0], s[k + 1]));
            }
        }
    } else {
        lemma_stage_le_total(field, asc, s[0], d);
        let r = insert_sorted(field, asc, d, s);
        assert(r =~= seq![d] + s);
        assert forall|j: int| 1 <= j < r.len() implies stage_le(field, asc, r[0], r[j]) by {
            assert(stage_le(field, asc, d, s[0]));
            if j > 1 {
                assert(stage_le(field, asc, s[0], s[j - 1]));
                lemma_stage_le_trans(field, asc, d, s[0], s[j - 1]);
            }
        }
    }
}

/// Every element of an insertion's result is the inserted document or an
/// element of the original sequence.
proof fn lemma_insert_sorted_membership(field: Seq<char>, asc: bool, d: Dv, s: Seq<Dv>, j: int)
    requires
        0 <= j < insert_sorted(field, asc, d, s).len(),
    ensures
        insert_sorted(field, asc, d, s)[j] == d || exists|k: int|
            0 <= k < s.len() && s[k] == insert_sorted(field, asc, d, s)[j],
    decreases s.len(),
{
    lemma_insert_sorted_len(field, asc, d, s);
    if s.len() > 0 && stage_le(field, asc, s[0], d) {
        if j > 0 {
            lemma_insert_sorted_membership(field, asc, d, s.drop_first(), j - 1);
            let t = insert_sorted(field, asc, d, s.drop_first());
            if t[j - 1] != d {
                let k = choose|k: int| 0 <= k < s.drop_first().len() && s.drop_first()[k] == t[j
                    - 1];
                assert(s[k + 1] == insert_sorted(field, asc, d, s)[j]);
            }
        } else {
            assert(s[0] == insert_sorted(field, asc, d, s)[0]);
        }
    } else if s.len() > 0 {
        if j > 0 {
            assert(s[j - 1] == insert_sorted(field, asc, d, s)[j]);
        }
    }
}

/// The sort's result is sorted.
pub proof fn lemma_sort_docs_sorted(field: Seq<char>, asc: bool, s: Seq<Dv>)
    ensures
        sorted_by(field, asc, sort_docs(field, asc, s)),
    decreases s.len(),
{
    if s.len() > 0 {
        lemma_sort_docs_sorted(field, asc, s.drop_last());
        lemma_insert_sorted_sorted(field, asc, s.last(), sort_docs(field, asc, s.drop_last()));
    }
}

/// Whether two documents' sort keys tie.
pub open spec fn key_tied(field: Seq<char>, asc: bool, a: Dv, b: Dv) -> bool {
    stage_le(field, asc, a, b) && stage_le(field, asc, b, a)
}

/// The subsequence of documents whose keys tie the key of `k`.
pub open spec fn class_filter(field: Seq<char>, asc: bool, k: Dv, s: Seq<Dv>) -> Seq<Dv>
    decreases s.len(),
{
    if s.len() == 0 {
        Seq::empty()
    } else if key_tied(field, asc, s[0], k) {
        seq![s[0]] + class_filter(field, asc, k, s.drop_first())
    } else {
        class_filter(field, asc, k, s.drop_first())
    }
}

/// Appending a document appends it to its class, and to no other.
proof fn lemma_class_filter_push(field: Seq<char>, asc: bool, k: Dv, s: Seq<Dv>, x: Dv)
    ensures
        class_filter(field, asc, k, s.push(x)) == if key_tied(field, asc, x, k) {
            class_filter(field, asc, k, s).push(x)
        } else {
            class_filter(field, asc, k, s)
        },
    decreases s.len(),
{
    if s.len() == 0 {
        assert(class_filter(field, asc, k, Seq::<Dv>::empty()) =~= Seq::<Dv>::empty());
        assert(s =~= Seq::<Dv>::empty());
        assert(s.push(x)[0] == x);
        assert(s.push(x).drop_first() =~= Seq::<Dv>::empty());
        if key_tied(field, asc, x, k) {
            assert(seq![x] + Seq::<Dv>::empty() =~= class_filter(field, asc, k, s).push(x));
        }
    } else {
        lemma_class_filter_push(field, asc, k, s.drop_first(), x);
        assert(s.push(x)[0] == s[0]);
        assert(s.push(x).drop_first() =~= s.drop_first().push(x));
        if key_tied(field, asc, s[0], k) && key_tied(field, asc, x, k) {
            assert(seq![s[0]] + class_filter(field, asc, k, s.drop_first()).push(x) =~= (seq![
                s[0],
            ] + class_filter(field, asc, k, s.drop_first())).push(x));
        }
    }
}

/// Inserting a document into a sorted sequence appends it to its class
/// (never before a tie: that is the stability of the sort), and changes
/// no other class.
proof fn lemma_insert_class(field: Seq<char>, asc: bool, k: Dv, d: Dv, s: Seq<Dv>)
    requires
        sorted_by(field, asc, s),
    ensures
        class_filter(field, asc, k, insert_sorted(field, asc, d, s)) == if key_tied(
            field,
            asc,
            d,
            k,
        ) {
            class_filter(field, asc, k, s).push(d)
        } else {
            class_filter(field, asc, k, s)
        },
    decreases s.len(),
{
    let r = insert_sorted(field, asc, d, s);
    if s.len() == 0 {
        assert(class_filter(field, asc, k, Seq::<Dv>::empty()) =~= Seq::<Dv>::empty());
        assert(s =~= Seq::<Dv>::empty());
        assert(r =~= seq![d]);
        assert(r.drop_first() =~= Seq::<Dv>::empty());
        if key_tied(field, asc, d, k) {
            assert(seq![d] + Seq::<Dv>::empty() =~= Seq::<Dv>::empty().push(d));
        }
    } else if stage_le(field, asc, s[0], d) {
        assert(forall|i: int, j: int|
            0 <= i < j < s.drop_first().len() ==> stage_le(
                field,
                asc,
                #[trigger] s.drop_first()[i],
                #[trigger] s.drop_first()[j],
            ));
        lemma_insert_class(field, asc, k, d, s.drop_first());
        assert(r =~= seq![s[0]] + insert_sorted(field, asc, d, s.drop_first()));
        assert(r[0] == s[0]);
        assert(r.drop_first() =~= insert_sorted(field, asc, d, s.drop_first()));
        if key_tied(field, asc, s[0], k) && key_tied(field, asc, d, k) {
            assert(seq![s[0]] + class_filter(field, asc, k, s.drop_first()).push(d) =~= (seq![
                s[0],
            ] + class_filter(field, asc, k, s.drop_first())).push(d));
        }
    } else {
        // d lands at the front; nothing in s ties d's key, for s[0] does
        // not come at or before d and s is sorted
        assert(r =~= seq![d] + s);
        assert(r[0] == d);
        assert(r.drop_first() =~= s);
        if key_tied(field, asc, d, k) {
            // a tie in s would give s[e] at or before d
            assert(class_filter(field, asc, k, s) =~= Seq::<Dv>::empty()) by {
                lemma_class_filter_no_ties(field, asc, k, d, s);
            }
            assert(seq![d] + class_filter(field, asc, k, s) =~= class_filter(
                field,
                asc,
                k,
                s,
            ).push(d));
        }
    }
}

/// When the head of a sorted sequence does not come at or before `d`, no
/// element tied to `d`'s class is in it.
proof fn lemma_class_filter_no_ties(field: Seq<char>, asc: bool, k: Dv, d: Dv, s: Seq<Dv>)
    requires
        sorted_by(field, asc, s),
        s.len() > 0,
        !stage_le(field, asc, s[0], d),
        key_tied(field, asc, d, k),
    ensures
        class_filter(field, asc, k, s) == Seq::<Dv>::empty(),
    decreases s.len(),
{
    assert(!key_tied(field, asc, s[0], k)) by {
        if key_tied(field, asc, s[0], k) {
            lemma_stage_le_trans(field, asc, s[0], k, d);
        }
    }
    if s.len() > 1 {
        assert(stage_le(field, asc, s[0], s.drop_first()[0]));
        assert(!stage_le(field, asc, s.drop_first()[0], d)) by {
            if stage_le(field, asc, s.drop_first()[0], d) {
                lemma_stage_le_trans(field, asc, s[0], s.drop_first()[0], d);
            }
        }
        assert(forall|i: int, j: int|
            0 <= i < j < s.drop_first().len() ==> stage_le(
                field,
                asc,
                #[trigger] s.drop_first()[i],
                #[trigger] s.drop_first()[j],
            ));
        lemma_class_filter_no_ties(field, asc, k, d, s.drop_first());
    } else {
        assert(class_filter(field, asc, k, s.drop_first()) =~= Seq::<Dv>::empty());
    }
}

/// The sort is stable: within each class of tied keys, the documents
/// keep their prior relative order.
pub proof fn lemma_sort_docs_stable(field: Seq<char>, asc: bool, k: Dv, s: Seq<Dv>)
    ensures
        class_filter(field, asc, k, sort_docs(field, asc, s)) == class_filter(field, asc, k, s),
    decreases s.len(),
{
    if s.len() > 0 {
        lemma_sort_docs_stable(field, asc, k, s.drop_last());
        lemma_sort_docs_sorted(field, asc, s.drop_last());
        lemma_insert_class(field, asc, k, s.last(), sort_docs(field, asc, s.drop_last()));
        lemma_class_filter_push(field, asc, k, s.drop_last(), s.last());
        assert(s.drop_last().push(s.last()) =~= s);
    }
}

/// Sorting descending a stream that is already sorted ascending with
/// pairwise distinct keys reverses it. (Documents with equal keys keep
/// their prior relative order: `insert_sorted` never places a document
/// before one whose key ties its own.)
pub proof fn lemma_sort_desc_reverses(field: Seq<char>, s: Seq<Dv>)
    requires
        forall|i: int, j: int|
            0 <= i < j < s.len() ==> stage_le(field, true, #[trigger] s[i], #[trigger] s[j])
                && !stage_le(field, true, s[j], s[i]),
    ensures
        sort_docs(field, false, s) =~= s.reverse(),
    decreases s.len(),
{
    if s.len() == 0 {
        assert(s.reverse() =~= Seq::<Dv>::empty());
    } else {
        let s2 = s.drop_last();
        let d = s.last();
        lemma_sort_desc_reverses(field, s2);
        lemma_sort_docs_len(field, false, s2);
        let t = sort_docs(field, false, s2);
        if s2.len() == 0 {
            assert(insert_sorted(field, false, d, t) =~= seq![d]);
            assert(s.reverse() =~= seq![d]);
        } else {
            // the head of the reversed prefix has a key strictly before d's
            assert(t =~= s2.reverse());
            assert(t[0] == s[s.len() - 2]);
            assert(!stage_le(field, true, d, s[s.len() - 2]));
            assert(!stage_le(field, false, t[0], d));
            assert(insert_sorted(field, false, d, t) =~= seq![d] + t);
            assert(s.reverse() =~= seq![d] + s2.reverse());
        }
    }
}

} // verus!
