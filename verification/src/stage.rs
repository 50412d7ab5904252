//! Pipeline stages as data: a closed set of operations over a document
//! stream, inspectable and validated before anything runs.

use vstd::prelude::*;
use crate::document::{Value, Vv};
use crate::order::rank;

verus! {

/// A filter over one field of a document.
pub enum Pred {
    /// The field holds a scalar equal to the literal.
    Eq { field: String, literal: Value },
    /// The field holds an array with a sub-document element whose `inner`
    /// field holds a scalar equal to the literal.
    ElemMatch { field: String, inner: String, literal: Value },
    /// The field holds a scalar of the literal's kind, at or before the
    /// literal in the document order.
    Le { field: String, literal: Value },
}

/// The spec-level view of a `Pred`.
pub enum PredV {
    Eq { field: Seq<char>, literal: Vv },
    ElemMatch { field: Seq<char>, inner: Seq<char>, literal: Vv },
    Le { field: Seq<char>, literal: Vv },
}

impl Pred {
    /// The view of a predicate.
    pub open spec fn dv(self) -> PredV {
        match self {
            Pred::Eq { field, literal } => PredV::Eq { field: field@, literal: literal.dv() },
            Pred::ElemMatch { field, inner, literal } => PredV::ElemMatch {
                field: field@,
                inner: inner@,
                literal: literal.dv(),
            },
            Pred::Le { field, literal } => PredV::Le { field: field@, literal: literal.dv() },
        }
    }
}

/// A derived-field expression.
pub enum Expr {
    /// The arithmetic mean of the `item` field over the sub-documents of
    /// the array field `source`.
    Avg { source: String, item: String },
    /// The same mean, rounded to the nearest half for display.
    AvgRounded { source: String, item: String },
}

/// The spec-level view of an `Expr`.
pub enum ExprV {
    Avg { source: Seq<char>, item: Seq<char> },
    AvgRounded { source: Seq<char>, item: Seq<char> },
}

impl Expr {
    /// The view of an expression.
    pub open spec fn dv(self) -> ExprV {
        match self {
            Expr::Avg { source, item } => ExprV::Avg { source: source@, item: item@ },
            Expr::AvgRounded { source, item } => ExprV::AvgRounded {
                source: source@,
                item: item@,
            },
        }
    }
}

/// One pipeline operation.
pub enum Stage {
    /// Keeps the documents satisfying the predicate.
    Match(Pred),
    /// Stable sort by one field.
    Sort { field: String, ascending: bool },
    /// Attaches, under `as_field`, the array of documents of the `from`
    /// collection whose `foreign_field` equals this document's
    /// `local_field`.
    Lookup { from: String, local_field: String, foreign_field: String, as_field: String },
    /// Stores a computed value under `field`, overwriting any field of
    /// that name.
    AddField { field: String, expr: Expr },
    /// Truncates the stream to its first `n` documents.
    Limit(usize),
}

/// The spec-level view of a `Stage`.
pub enum StageV {
    Match(PredV),
    Sort { field: Seq<char>, ascending: bool },
    Lookup { from: Seq<char>, local_field: Seq<char>, foreign_field: Seq<char>, as_field: Seq<
        char,
    > },
    AddField { field: Seq<char>, expr: ExprV },
    Limit(int),
}

impl Stage {
    /// The view of a stage.
    pub open spec fn dv(self) -> StageV {
        match self {
            Stage::Match(p) => StageV::Match(p.dv()),
            Stage::Sort { field, ascending } => StageV::Sort { field: field@, ascending },
            Stage::Lookup { from, local_field, foreign_field, as_field } => StageV::Lookup {
                from: from@,
                local_field: local_field@,
                foreign_field: foreign_field@,
                as_field: as_field@,
            },
            Stage::AddField { field, expr } => StageV::AddField { field: field@, expr: expr.dv() },
            Stage::Limit(n) => StageV::Limit(n as int),
        }
    }
}

/// The views of a stage sequence, element by element.
pub open spec fn stages_dv(s: Seq<Stage>) -> Seq<StageV>
    decreases s,
{
    if s.len() == 0 {
        Seq::empty()
    } else {
        seq![s[0].dv()] + stages_dv(s.drop_first())
    }
}

/// `stages_dv` maps the sequence pointwise.
pub proof fn lemma_stages_dv(s: Seq<Stage>)
    ensures
        stages_dv(s).len() == s.len(),
        forall|i: int| 0 <= i < s.len() ==> stages_dv(s)[i] == s[i].dv(),
    decreases s,
{
    if s.len() > 0 {
        lemma_stages_dv(s.drop_first());
    }
}

/// Whether a predicate's configuration is supported: an equality literal
/// must be a scalar, and an order literal a string or a number (the
/// sortable kinds).
pub open spec fn pred_valid(p: PredV) -> bool {
    match p {
        PredV::Eq { field: _, literal } => rank(literal) <= 4,
        PredV::ElemMatch { field: _, inner: _, literal } => rank(literal) <= 4,
        PredV::Le { field: _, literal } => literal is Str || literal is Num,
    }
}

/// Whether a stage's configuration is supported.
pub open spec fn stage_valid(st: StageV) -> bool {
    match st {
        StageV::Match(p) => pred_valid(p),
        _ => true,
    }
}

/// Whether the predicate's configuration is supported.
pub fn pred_valid_exec(p: &Pred) -> (r: bool)
    ensures
        r == pred_valid(p.dv()),
{
    match p {
        Pred::Eq { field: _, literal } => crate::order::rank_exec(literal) <= 4,
        Pred::ElemMatch { field: _, inner: _, literal } => crate::order::rank_exec(literal) <= 4,
        Pred::Le { field: _, literal } => {
            let k = crate::order::rank_exec(literal);
            k == 2 || k == 4
        },
    }
}

/// Whether the stage's configuration is supported.
pub fn stage_valid_exec(st: &Stage) -> (r: bool)
    ensures
        r == stage_valid(st.dv()),
{
    match st {
        Stage::Match(p) => pred_valid_exec(p),
        _ => true,
    }
}

} // verus!
