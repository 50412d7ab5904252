//! Equality and order on field values: scalar equality for the match and
//! lookup stages, and a total preorder on values for the sort stage.

use vstd::prelude::*;
use crate::document::{rat_eq, rat_le, rden, str_eq, Rational, Value, Vv};

verus! {

/// Lexicographic order on character sequences, by code point.
pub open spec fn lex_le(a: Seq<char>, b: Seq<char>) -> bool
    decreases a.len(),
{
    if a.len() == 0 {
        true
    } else if b.len() == 0 {
        false
    } else if a[0] == b[0] {
        lex_le(a.drop_first(), b.drop_first())
    } else {
        (a[0] as int) < (b[0] as int)
    }
}

/// Dropping an equal prefix does not change the lexicographic order.
proof fn lemma_lex_le_skip(a: Seq<char>, b: Seq<char>, i: int)
    requires
        0 <= i <= a.len(),
        i <= b.len(),
        forall|j: int| 0 <= j < i ==> a[j] == b[j],
    ensures
        lex_le(a, b) == lex_le(a.skip(i), b.skip(i)),
    decreases i,
{
    if i > 0 {
        lemma_lex_le_skip(a.drop_first(), b.drop_first(), i - 1);
        assert(a.drop_first().skip(i - 1) =~= a.skip(i));
        assert(b.drop_first().skip(i - 1) =~= b.skip(i));
    } else {
        assert(a.skip(0) =~= a);
        assert(b.skip(0) =~= b);
    }
}

/// The lexicographic order is total.
pub proof fn lemma_lex_le_total(a: Seq<char>, b: Seq<char>)
    ensures
        lex_le(a, b) || lex_le(b, a),
    decreases a.len(),
{
    if a.len() > 0 && b.len() > 0 {
        if a[0] == b[0] {
            lemma_lex_le_total(a.drop_first(), b.drop_first());
        } else {
            assert((a[0] as int) != (b[0] as int));
        }
    }
}

/// Whether `a` comes at or before `b` lexicographically.
pub fn str_le(a: &str, b: &str) -> (r: bool)
    ensures
        r == lex_le(a@, b@),
{
    let an = a.unicode_len();
    let bn = b.unicode_len();
    let mut i: usize = 0;
    while i < an && i < bn
        invariant
            an == a@.len(),
            bn == b@.len(),
            i <= an,
            i <= bn,
            forall|j: int| 0 <= j < i ==> a@[j] == b@[j],
        decreases an - i,
    {
        let ca = a.get_char(i);
        let cb = b.get_char(i);
        if ca != cb {
            proof {
                lemma_lex_le_skip(a@, b@, i as int);
                assert(a@.skip(i as int)[0] == a@[i as int]);
                assert(b@.skip(i as int)[0] == b@[i as int]);
            }
            return ca < cb;
        }
        i += 1;
    }
    proof {
        lemma_lex_le_skip(a@, b@, i as int);
        if an <= bn {
            assert(a@.skip(i as int).len() == 0);
        } else {
            assert(a@.skip(i as int).len() > 0);
            assert(b@.skip(i as int).len() == 0);
        }
    }
    an <= bn
}

/// Equality of two field values read as scalars: arrays and sub-documents
/// never compare equal to anything, and numbers compare by value.
pub open spec fn scalar_eq_v(a: Vv, b: Vv) -> bool {
    match (a, b) {
        (Vv::Null, Vv::Null) => true,
        (Vv::Bool(x), Vv::Bool(y)) => x == y,
        (Vv::Num(x), Vv::Num(y)) => rat_eq(x, y),
        (Vv::Ts(x), Vv::Ts(y)) => x == y,
        (Vv::Str(x), Vv::Str(y)) => x == y,
        _ => false,
    }
}

/// Whether two rationals carry the same value.
pub fn rat_eq_exec(a: &Rational, b: &Rational) -> (r: bool)
    ensures
        r == rat_eq(*a, *b),
{
    let ad = crate::avg::rden_exec(a);
    let bd = crate::avg::rden_exec(b);
    proof {
        lemma_rat_prod_in_i128(a.num as int, bd as int);
        lemma_rat_prod_in_i128(b.num as int, ad as int);
    }
    (a.num as i128) * (bd as i128) == (b.num as i128) * (ad as i128)
}

/// Whether `a <= b` as rational values.
pub fn rat_le_exec(a: &Rational, b: &Rational) -> (r: bool)
    ensures
        r == rat_le(*a, *b),
{
    let ad = crate::avg::rden_exec(a);
    let bd = crate::avg::rden_exec(b);
    proof {
        lemma_rat_prod_in_i128(a.num as int, bd as int);
        lemma_rat_prod_in_i128(b.num as int, ad as int);
    }
    (a.num as i128) * (bd as i128) <= (b.num as i128) * (ad as i128)
}

proof fn lemma_rat_prod_in_i128(x: int, y: int)
    requires
        -0x8000_0000_0000_0000 <= x <= 0x7fff_ffff_ffff_ffff,
        1 <= y <= 0xffff_ffff_ffff_ffff,
    ensures
        -0x8000_0000_0000_0000_0000_0000_0000_0000 < x * y
            < 0x8000_0000_0000_0000_0000_0000_0000_0000,
{
    assert(-0x8000_0000_0000_0000_0000_0000_0000_0000 < x * y
        < 0x8000_0000_0000_0000_0000_0000_0000_0000) by (nonlinear_arith)
        requires
            -0x8000_0000_0000_0000 <= x <= 0x7fff_ffff_ffff_ffff,
            1 <= y <= 0xffff_ffff_ffff_ffff,
    ;
}

/// Whether the two values read as equal scalars.
pub fn scalar_eq(a: &Value, b: &Value) -> (r: bool)
    ensures
        r == scalar_eq_v(a.dv(), b.dv()),
{
    match (a, b) {
        (Value::Null, Value::Null) => true,
        (Value::Bool(x), Value::Bool(y)) => x == y,
        (Value::Num(x), Value::Num(y)) => rat_eq_exec(x, y),
        (Value::Ts(x), Value::Ts(y)) => x == y,
        (Value::Str(x), Value::Str(y)) => str_eq(x.as_str(), y.as_str()),
        _ => false,
    }
}

/// The rank a value's kind takes in the document order: null, then
/// booleans, numbers, timestamps, strings, arrays, sub-documents.
pub open spec fn rank(v: Vv) -> int {
    match v {
        Vv::Null => 0,
        Vv::Bool(_) => 1,
        Vv::Num(_) => 2,
        Vv::Ts(_) => 3,
        Vv::Str(_) => 4,
        Vv::Arr(_) => 5,
        Vv::Obj(_) => 6,
    }
}

/// Total preorder on field values: kinds order by rank; scalars of one
/// kind order by value; two arrays (or two sub-documents) always tie, a
/// sort key being expected to be a scalar.
pub open spec fn value_le(a: Vv, b: Vv) -> bool {
    if rank(a) != rank(b) {
        rank(a) < rank(b)
    } else {
        match (a, b) {
            (Vv::Bool(x), Vv::Bool(y)) => !x || y,
            (Vv::Num(x), Vv::Num(y)) => rat_le(x, y),
            (Vv::Ts(x), Vv::Ts(y)) => x <= y,
            (Vv::Str(x), Vv::Str(y)) => lex_le(x, y),
            _ => true,
        }
    }
}

/// Order on a document's sort key: a document lacking the sort field sorts
/// below every document carrying one.
pub open spec fn key_le(a: Option<Vv>, b: Option<Vv>) -> bool {
    match (a, b) {
        (Option::None, _) => true,
        (Option::Some(_), Option::None) => false,
        (Option::Some(x), Option::Some(y)) => value_le(x, y),
    }
}

/// The key order is total.
pub proof fn lemma_key_le_total(a: Option<Vv>, b: Option<Vv>)
    ensures
        key_le(a, b) || key_le(b, a),
{
    if a is Some && b is Some {
        let x = a->0;
        let y = b->0;
        if rank(x) == rank(y) {
            match (x, y) {
                (Vv::Str(s), Vv::Str(t)) => {
                    lemma_lex_le_total(s, t);
                },
                _ => {},
            }
        }
    }
}

/// The lexicographic order is transitive.
pub proof fn lemma_lex_le_trans(a: Seq<char>, b: Seq<char>, c: Seq<char>)
    requires
        lex_le(a, b),
        lex_le(b, c),
    ensures
        lex_le(a, c),
    decreases a.len(),
{
    if a.len() > 0 && b.len() > 0 && c.len() > 0 {
        if a[0] == b[0] && b[0] == c[0] {
            lemma_lex_le_trans(a.drop_first(), b.drop_first(), c.drop_first());
        }
    }
}

/// The rational order is transitive.
pub proof fn lemma_rat_le_trans(a: Rational, b: Rational, c: Rational)
    requires
        rat_le(a, b),
        rat_le(b, c),
    ensures
        rat_le(a, c),
{
    assert((a.num as int) * rden(c) <= (c.num as int) * rden(a)) by (nonlinear_arith)
        requires
            (a.num as int) * rden(b) <= (b.num as int) * rden(a),
            (b.num as int) * rden(c) <= (c.num as int) * rden(b),
            rden(a) >= 1,
            rden(b) >= 1,
            rden(c) >= 1,
    ;
}

/// The key order is transitive.
pub proof fn lemma_key_le_trans(a: Option<Vv>, b: Option<Vv>, c: Option<Vv>)
    requires
        key_le(a, b),
        key_le(b, c),
    ensures
        key_le(a, c),
{
    if a is Some && b is Some && c is Some {
        let x = a->0;
        let y = b->0;
        let z = c->0;
        if rank(x) == rank(y) && rank(y) == rank(z) {
            match (x, y, z) {
                (Vv::Str(s), Vv::Str(t), Vv::Str(u)) => {
                    lemma_lex_le_trans(s, t, u);
                },
                (Vv::Num(p), Vv::Num(q), Vv::Num(r)) => {
                    lemma_rat_le_trans(p, q, r);
                },
                _ => {},
            }
        }
    }
}

/// The rank of a value's kind.
pub fn rank_exec(v: &Value) -> (k: u8)
    ensures
        k as int == rank(v.dv()),
{
    match v {
        Value::Null => 0,
        Value::Bool(_) => 1,
        Value::Num(_) => 2,
        Value::Ts(_) => 3,
        Value::Str(_) => 4,
        Value::Arr(_) => 5,
        Value::Obj(_) => 6,
    }
}

/// Whether `a <= b` in the document order on values.
pub fn value_le_exec(a: &Value, b: &Value) -> (r: bool)
    ensures
        r == value_le(a.dv(), b.dv()),
{
    let ra = rank_exec(a);
    let rb = rank_exec(b);
    if ra != rb {
        return ra < rb;
    }
    match (a, b) {
        (Value::Bool(x), Value::Bool(y)) => !*x || *y,
        (Value::Num(x), Value::Num(y)) => rat_le_exec(x, y),
        (Value::Ts(x), Value::Ts(y)) => x <= y,
        (Value::Str(x), Value::Str(y)) => str_le(x.as_str(), y.as_str()),
        _ => true,
    }
}

} // verus!
