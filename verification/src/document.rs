//! The dynamically-shaped `Document` value model: a tagged union over
//! null / boolean / exact rational number / timestamp / string / array /
//! sub-document, together with its mathematical (spec-level) view.

use vstd::prelude::*;

verus! {

/// An exact rational number `num / den`; the numeric field type of a
/// `Document`. Averages of integer ratings are rationals, so the model
/// keeps numbers exact instead of using floating point.
#[derive(Clone, Copy, PartialEq, Eq, Structural, Debug)]
pub struct Rational {
    pub num: i64,
    pub den: u64,
}

impl Rational {
    /// A well-formed rational has a non-zero denominator.
    pub open spec fn wf(self) -> bool {
        self.den >= 1
    }

    /// The integer `n` as a rational.
    pub fn from_int(n: i64) -> (r: Rational)
        ensures
            r == (Rational { num: n, den: 1u64 }),
            r.wf(),
    {
        Rational { num: n, den: 1 }
    }
}

/// The denominator a rational is read with: a zero denominator is read as
/// one, so that every `Rational` carries a value and comparisons stay
/// total.
pub open spec fn rden(r: Rational) -> int {
    if r.den == 0 {
        1
    } else {
        r.den as int
    }
}

/// Value equality of two rationals (`a/b == c/d` iff `a*d == c*b`).
pub open spec fn rat_eq(a: Rational, b: Rational) -> bool {
    (a.num as int) * rden(b) == (b.num as int) * rden(a)
}

/// Value order on rationals (`a/b <= c/d` iff `a*d <= c*b`).
pub open spec fn rat_le(a: Rational, b: Rational) -> bool {
    (a.num as int) * rden(b) <= (b.num as int) * rden(a)
}

/// One field value of a `Document`.
pub enum Value {
    Null,
    Bool(bool),
    Num(Rational),
    /// A point in time, in milliseconds.
    Ts(i64),
    Str(String),
    Arr(Vec<Value>),
    Obj(Document),
}

/// A dynamically-shaped record: named fields in insertion order. Field
/// lookup takes the first field of a given name; nothing forces names to
/// be distinct, and no further invariant is enforced on a `Document`.
pub struct Document {
    pub fields: Vec<(String, Value)>,
}

/// The spec-level view of a `Value`: strings become `Seq<char>`, arrays
/// and sub-documents become `Seq`s of views.
#[verifier::ext_equal]
pub enum Vv {
    Null,
    Bool(bool),
    Num(Rational),
    Ts(i64),
    Str(Seq<char>),
    Arr(Seq<Vv>),
    Obj(Seq<(Seq<char>, Vv)>),
}

/// The spec-level view of a `Document`.
pub type Dv = Seq<(Seq<char>, Vv)>;

impl Value {
    /// The view of a `Value`.
    pub open spec fn dv(self) -> Vv
        decreases self,
    {
        match self {
            Value::Null => Vv::Null,
            Value::Bool(b) => Vv::Bool(b),
            Value::Num(r) => Vv::Num(r),
            Value::Ts(t) => Vv::Ts(t),
            Value::Str(s) => Vv::Str(s@),
            Value::Arr(items) => Vv::Arr(dv_of_values(items@)),
            Value::Obj(d) => Vv::Obj(dv_of_fields(d.fields@)),
        }
    }
}

/// The views of a sequence of values, element by element.
pub open spec fn dv_of_values(s: Seq<Value>) -> Seq<Vv>
    decreases s,
{
    if s.len() == 0 {
        Seq::empty()
    } else {
        seq![s[0].dv()] + dv_of_values(s.drop_first())
    }
}

/// The views of a field list, element by element.
pub open spec fn dv_of_fields(s: Seq<(String, Value)>) -> Dv
    decreases s,
{
    if s.len() == 0 {
        Seq::empty()
    } else {
        seq![(s[0].0@, s[0].1.dv())] + dv_of_fields(s.drop_first())
    }
}

impl Document {
    /// The view of a `Document`.
    pub open spec fn dv(self) -> Dv {
        dv_of_fields(self.fields@)
    }

    /// The empty document.
    pub fn new() -> (d: Document)
        ensures
            d.dv() == Seq::<(Seq<char>, Vv)>::empty(),
    {
        Document { fields: Vec::new() }
    }
}

/// The value a field of name `name` holds in `d`: the first field of that
/// name, or `None` when no field has the name.
pub open spec fn lookup_dv(d: Dv, name: Seq<char>) -> Option<Vv>
    decreases d,
{
    if d.len() == 0 {
        None
    } else if d[0].0 == name {
        Some(d[0].1)
    } else {
        lookup_dv(d.drop_first(), name)
    }
}

/// `d` with the first field named `name` replaced by `value`, or with
/// `(name, value)` appended when no field has the name.
pub open spec fn set_dv(d: Dv, name: Seq<char>, value: Vv) -> Dv
    decreases d,
{
    if d.len() == 0 {
        seq![(name, value)]
    } else if d[0].0 == name {
        seq![(name, value)] + d.drop_first()
    } else {
        seq![d[0]] + set_dv(d.drop_first(), name, value)
    }
}

/// Whether two character strings are equal.
pub fn str_eq(a: &str, b: &str) -> (r: bool)
    ensures
        r == (a@ == b@),
{
    let an = a.unicode_len();
    let bn = b.unicode_len();
    if an != bn {
        return false;
    }
    let mut i: usize = 0;
    while i < an
        invariant
            an == a@.len(),
            an == b@.len(),
            i <= an,
            forall|j: int| 0 <= j < i ==> a@[j] == b@[j],
        decreases an - i,
    {
        if a.get_char(i) != b.get_char(i) {
            return false;
        }
        i += 1;
    }
    proof {
        assert(a@ =~= b@);
    }
    true
}

impl Document {
    /// Looks a field up by name: a reference to the first field of that
    /// name, or `None`.
    pub fn get<'a>(&'a self, name: &str) -> (r: Option<&'a Value>)
        ensures
            match r {
                Some(v) => lookup_dv(self.dv(), name@) == Some(v.dv()),
                None => lookup_dv(self.dv(), name@) is None,
            },
    {
        let n = self.fields.len();
        let mut i: usize = 0;
        while i < n
            invariant
                n == self.fields.len(),
                i <= n,
                forall|j: int| 0 <= j < i ==> self.fields@[j].0@ != name@,
            decreases n - i,
        {
            if str_eq(self.fields[i].0.as_str(), name) {
                proof {
                    lemma_dv_of_fields(self.fields@);
                    lemma_lookup_first(self.dv(), name@, i as int);
                }
                return Some(&self.fields[i].1);
            }
            i += 1;
        }
        proof {
            lemma_dv_of_fields(self.fields@);
            lemma_lookup_absent(self.dv(), name@);
        }
        None
    }

    /// The field as a string, or `None` when it is absent or of another
    /// type: never a crash.
    pub fn get_str<'a>(&'a self, name: &str) -> (r: Option<&'a String>)
        ensures
            match lookup_dv(self.dv(), name@) {
                Option::Some(Vv::Str(t)) => r is Some && r->0@ == t,
                _ => r is None,
            },
    {
        match self.get(name) {
            Option::Some(Value::Str(s)) => Some(s),
            _ => None,
        }
    }

    /// The field as a number, or `None` when it is absent or of another
    /// type.
    pub fn get_num(&self, name: &str) -> (r: Option<Rational>)
        ensures
            match lookup_dv(self.dv(), name@) {
                Option::Some(Vv::Num(q)) => r == Some(q),
                _ => r is None,
            },
    {
        match self.get(name) {
            Option::Some(Value::Num(q)) => Some(*q),
            _ => None,
        }
    }

    /// The field as a timestamp, or `None` when it is absent or of
    /// another type.
    pub fn get_ts(&self, name: &str) -> (r: Option<i64>)
        ensures
            match lookup_dv(self.dv(), name@) {
                Option::Some(Vv::Ts(t)) => r == Some(t),
                _ => r is None,
            },
    {
        match self.get(name) {
            Option::Some(Value::Ts(t)) => Some(*t),
            _ => None,
        }
    }

    /// The field as an array, or `None` when it is absent or of another
    /// type.
    pub fn get_arr<'a>(&'a self, name: &str) -> (r: Option<&'a Vec<Value>>)
        ensures
            match lookup_dv(self.dv(), name@) {
                Option::Some(Vv::Arr(items)) => r is Some && dv_of_values(r->0@) == items,
                _ => r is None,
            },
    {
        match self.get(name) {
            Option::Some(Value::Arr(items)) => Some(items),
            _ => None,
        }
    }

    /// Sets a field: replaces the first field named `name`, or appends the
    /// field when the name is new.
    pub fn set(&mut self, name: String, value: Value)
        ensures
            final(self).dv() == set_dv(old(self).dv(), name@, value.dv()),
    {
        let n = self.fields.len();
        let mut i: usize = 0;
        while i < n
            invariant
                n == self.fields.len(),
                i <= n,
                *self == *old(self),
                forall|j: int| 0 <= j < i ==> self.fields@[j].0@ != name@,
            decreases n - i,
        {
            if str_eq(self.fields[i].0.as_str(), name.as_str()) {
                proof {
                    lemma_dv_of_fields(self.fields@);
                    lemma_set_found(self.dv(), name@, value.dv(), i as int);
                }
                let _ = self.fields.remove(i);
                self.fields.insert(i, (name, value));
                proof {
                    lemma_dv_of_fields(old(self).fields@.update(
                        i as int,
                        (name, value),
                    ));
                    assert(old(self).fields@.remove(i as int).insert(i as int, (name, value))
                        =~= old(self).fields@.update(i as int, (name, value)));
                    assert(final(self).dv() =~= set_dv(old(self).dv(), name@, value.dv()));
                }
                return;
            }
            i += 1;
        }
        proof {
            lemma_dv_of_fields(self.fields@);
            lemma_set_absent(self.dv(), name@, value.dv());
        }
        self.fields.push((name, value));
        proof {
            lemma_dv_of_fields(old(self).fields@.push((name, value)));
            assert(final(self).dv() =~= set_dv(old(self).dv(), name@, value.dv()));
        }
    }
}

impl Value {
    /// A structurally equal copy of the value.
    pub fn deep_clone(&self) -> (r: Value)
        ensures
            r.dv() == self.dv(),
        decreases *self,
    {
        match self {
            Value::Null => Value::Null,
            Value::Bool(b) => Value::Bool(*b),
            Value::Num(q) => Value::Num(*q),
            Value::Ts(t) => Value::Ts(*t),
            Value::Str(s) => Value::Str(s.clone()),
            Value::Arr(items) => {
                let n = items.len();
                let mut out: Vec<Value> = Vec::new();
                let mut i: usize = 0;
                while i < n
                    invariant
                        n == items.len(),
                        i <= n,
                        out@.len() == i,
                        forall|j: int| 0 <= j < i ==> out@[j].dv() == items@[j].dv(),
                        *self == Value::Arr(*items),
                    decreases n - i,
                {
                    proof {
                        assert(decreases_to!(*self => self->Arr_0));
                        assert(decreases_to!(self->Arr_0 => self->Arr_0@));
                        assert(decreases_to!(self->Arr_0@ => self->Arr_0@[i as int]));
                        assert(self->Arr_0@[i as int] == items@[i as int]);
                        assert(decreases_to!(*self => items@[i as int]));
                    }
                    out.push(items[i].deep_clone());
                    i += 1;
                }
                proof {
                    lemma_dv_of_values(out@);
                    lemma_dv_of_values(items@);
                    assert(dv_of_values(out@) =~= dv_of_values(items@));
                }
                Value::Arr(out)
            },
            Value::Obj(d) => Value::Obj(d.deep_clone()),
        }
    }
}

impl Document {
    /// A structurally equal copy of the document.
    pub fn deep_clone(&self) -> (r: Document)
        ensures
            r.dv() == self.dv(),
        decreases *self,
    {
        let n = self.fields.len();
        let mut out: Vec<(String, Value)> = Vec::new();
        let mut i: usize = 0;
        while i < n
            invariant
                n == self.fields.len(),
                i <= n,
                out@.len() == i,
                forall|j: int|
                    0 <= j < i ==> out@[j].0@ == self.fields@[j].0@ && out@[j].1.dv()
                        == self.fields@[j].1.dv(),
            decreases n - i,
        {
            proof {
                assert(decreases_to!(*self => self.fields));
                assert(decreases_to!(self.fields => self.fields@));
                assert(decreases_to!(self.fields@ => self.fields@[i as int]));
                assert(decreases_to!(self.fields@[i as int] => self.fields@[i as int].1));
                assert(decreases_to!(*self => self.fields@[i as int].1));
            }
            let name = self.fields[i].0.clone();
            let value = self.fields[i].1.deep_clone();
            out.push((name, value));
            i += 1;
        }
        proof {
            lemma_dv_of_fields(out@);
            lemma_dv_of_fields(self.fields@);
            assert(dv_of_fields(out@) =~= dv_of_fields(self.fields@));
        }
        Document { fields: out }
    }
}

/// When the first `i` fields miss the name and field `i` carries it, the
/// lookup returns field `i`'s value.
pub proof fn lemma_lookup_first(d: Dv, name: Seq<char>, i: int)
    requires
        0 <= i < d.len(),
        d[i].0 == name,
        forall|j: int| 0 <= j < i ==> d[j].0 != name,
    ensures
        lookup_dv(d, name) == Some(d[i].1),
    decreases i,
{
    if i > 0 {
        lemma_lookup_first(d.drop_first(), name, i - 1);
    }
}

/// When no field carries the name, the lookup returns `None`.
pub proof fn lemma_lookup_absent(d: Dv, name: Seq<char>)
    requires
        forall|j: int| 0 <= j < d.len() ==> d[j].0 != name,
    ensures
        lookup_dv(d, name) is None,
    decreases d,
{
    if d.len() > 0 {
        lemma_lookup_absent(d.drop_first(), name);
    }
}

/// When the first `i` fields miss the name and field `i` carries it,
/// setting the name updates field `i`.
pub proof fn lemma_set_found(d: Dv, name: Seq<char>, value: Vv, i: int)
    requires
        0 <= i < d.len(),
        d[i].0 == name,
        forall|j: int| 0 <= j < i ==> d[j].0 != name,
    ensures
        set_dv(d, name, value) =~= d.update(i, (name, value)),
    decreases i,
{
    if i > 0 {
        lemma_set_found(d.drop_first(), name, value, i - 1);
        assert(set_dv(d, name, value) =~= seq![d[0]] + set_dv(d.drop_first(), name, value));
        assert(d.update(i, (name, value)) =~= seq![d[0]] + d.drop_first().update(
            i - 1,
            (name, value),
        ));
    }
}

/// When no field carries the name, setting the name appends a field.
pub proof fn lemma_set_absent(d: Dv, name: Seq<char>, value: Vv)
    requires
        forall|j: int| 0 <= j < d.len() ==> d[j].0 != name,
    ensures
        set_dv(d, name, value) =~= d.push((name, value)),
    decreases d,
{
    if d.len() > 0 {
        lemma_set_absent(d.drop_first(), name, value);
        assert(set_dv(d, name, value) =~= seq![d[0]] + set_dv(d.drop_first(), name, value));
        assert(d.push((name, value)) =~= seq![d[0]] + d.drop_first().push((name, value)));
    }
}

/// The views of a sequence of documents, element by element.
pub open spec fn dvs_of(s: Seq<Document>) -> Seq<Dv>
    decreases s,
{
    if s.len() == 0 {
        Seq::empty()
    } else {
        seq![s[0].dv()] + dvs_of(s.drop_first())
    }
}

/// `dvs_of` maps the sequence pointwise.
pub proof fn lemma_dvs_of(s: Seq<Document>)
    ensures
        dvs_of(s).len() == s.len(),
        forall|i: int| 0 <= i < s.len() ==> dvs_of(s)[i] == s[i].dv(),
    decreases s,
{
    if s.len() > 0 {
        lemma_dvs_of(s.drop_first());
    }
}

/// `dv_of_values` maps the sequence pointwise.
pub proof fn lemma_dv_of_values(s: Seq<Value>)
    ensures
        dv_of_values(s).len() == s.len(),
        forall|i: int| 0 <= i < s.len() ==> dv_of_values(s)[i] == s[i].dv(),
    decreases s,
{
    if s.len() > 0 {
        lemma_dv_of_values(s.drop_first());
    }
}

/// `dv_of_fields` maps the field list pointwise.
pub proof fn lemma_dv_of_fields(s: Seq<(String, Value)>)
    ensures
        dv_of_fields(s).len() == s.len(),
        forall|i: int| 0 <= i < s.len() ==> dv_of_fields(s)[i] == (s[i].0@, s[i].1.dv()),
    decreases s,
{
    if s.len() > 0 {
        lemma_dv_of_fields(s.drop_first());
    }
}

} // verus!
