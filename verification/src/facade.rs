//! The consumer-facing surface: a validated `Pipeline`, and the
//! `QueryFacade` with its `find` and `aggregate` entry points over a
//! snapshot of the store.

use vstd::prelude::*;
use crate::document::{dvs_of, lemma_dvs_of, Document, Dv};
use crate::pipeline::{
    match_docs, run_stages, run_stages_spec, store_docs, PipelineError, Store,
};
use crate::sort::{apply_sort, sort_docs};
use crate::stage::{lemma_stages_dv, stage_valid, stage_valid_exec, stages_dv, Pred, Stage};

verus! {

/// A validated pipeline: constructing one checks every stage's
/// configuration, ahead of any execution.
pub struct Pipeline {
    pub stages: Vec<Stage>,
}

impl Pipeline {
    /// Every stage's configuration is supported.
    pub open spec fn wf(self) -> bool {
        forall|i: int|
            0 <= i < self.stages@.len() ==> stage_valid(#[trigger] self.stages@[i].dv())
    }

    /// Validates the stages; the error names the first unsupported one.
    pub fn new(stages: Vec<Stage>) -> (r: Result<Pipeline, PipelineError>)
        ensures
            match r {
                Result::Ok(p) => p.stages == stages && p.wf(),
                Result::Err(e) => e matches PipelineError::Configuration { stage_index }
                    && stage_index < stages@.len() && !stage_valid(
                    stages@[stage_index as int].dv(),
                ) && (forall|j: int|
                    0 <= j < stage_index ==> stage_valid(#[trigger] stages@[j].dv())),
            },
    {
        let n = stages.len();
        let mut i: usize = 0;
        while i < n
            invariant
                n == stages@.len(),
                i <= n,
                forall|j: int| 0 <= j < i ==> stage_valid(#[trigger] stages@[j].dv()),
            decreases n - i,
        {
            if !stage_valid_exec(&stages[i]) {
                return Err(PipelineError::Configuration { stage_index: i });
            }
            i += 1;
        }
        Ok(Pipeline { stages })
    }

    /// Runs the validated stages over the source documents, as
    /// `run_stages_spec` describes.
    pub fn run(&self, store: &Store, source: Vec<Document>) -> (r: Result<
        Vec<Document>,
        PipelineError,
    >)
        ensures
            match run_stages_spec(stages_dv(self.stages@), store.sv(), dvs_of(source@)) {
                Option::Some(t) => r is Ok && dvs_of(r->Ok_0@) == t,
                Option::None => r == Result::<Vec<Document>, PipelineError>::Err(
                    PipelineError::NumericOverflow,
                ),
            },
    {
        run_stages(&self.stages, store, source)
    }
}

/// A structurally equal copy of a document sequence.
fn clone_docs(docs: &Vec<Document>) -> (out: Vec<Document>)
    ensures
        dvs_of(out@) == dvs_of(docs@),
{
    let mut out: Vec<Document> = Vec::new();
    let n = docs.len();
    let mut i: usize = 0;
    while i < n
        invariant
            n == docs@.len(),
            i <= n,
            out@.len() == i,
            forall|j: int| 0 <= j < i ==> out@[j].dv() == docs@[j].dv(),
        decreases n - i,
    {
        out.push(docs[i].deep_clone());
        i += 1;
    }
    proof {
        lemma_dvs_of(out@);
        lemma_dvs_of(docs@);
        assert(dvs_of(out@) =~= dvs_of(docs@));
    }
    out
}

/// The boundary object the driver layer calls: queries against one
/// primary collection of a store snapshot. Each call starts from the
/// snapshot afresh; no state is carried between calls.
pub struct QueryFacade {
    pub store: Store,
    pub collection: String,
}

impl QueryFacade {
    /// The primary collection's documents.
    pub open spec fn source_dv(self) -> Seq<Dv> {
        store_docs(self.store.sv(), self.collection@)
    }

    /// A facade over `store`, querying the collection named `collection`.
    pub fn new(store: Store, collection: String) -> (q: QueryFacade)
        ensures
            q.store == store,
            q.collection == collection,
    {
        QueryFacade { store, collection }
    }

    /// The primary collection, fetched afresh.
    fn source(&self) -> (out: Vec<Document>)
        ensures
            dvs_of(out@) == self.source_dv(),
    {
        match self.store.find_collection(self.collection.as_str()) {
            Option::Some(docs) => clone_docs(docs),
            Option::None => {
                let out: Vec<Document> = Vec::new();
                proof {
                    lemma_dvs_of(out@);
                }
                out
            },
        }
    }

    /// The convenience path: one `Match`, then an optional stable `Sort`
    /// by `(field, ascending)`. An unsupported filter configuration is
    /// refused before anything runs, as in `aggregate`.
    pub fn find(&self, filter: &Pred, sort: Option<(String, bool)>) -> (r: Result<
        Vec<Document>,
        PipelineError,
    >)
        ensures
            crate::stage::pred_valid(filter.dv()) ==> r is Ok && dvs_of(r->Ok_0@) == (match sort {
                Option::Some((field, ascending)) => sort_docs(
                    field@,
                    ascending,
                    match_docs(filter.dv(), self.source_dv()),
                ),
                Option::None => match_docs(filter.dv(), self.source_dv()),
            }),
            !crate::stage::pred_valid(filter.dv()) ==> r == Result::<
                Vec<Document>,
                PipelineError,
            >::Err(PipelineError::Configuration { stage_index: 0 }),
    {
        if !crate::stage::pred_valid_exec(filter) {
            return Err(PipelineError::Configuration { stage_index: 0 });
        }
        let src = self.source();
        let matched = crate::pipeline::apply_match(filter, src);
        match sort {
            Option::Some((field, ascending)) => Ok(
                apply_sort(field.as_str(), ascending, matched),
            ),
            Option::None => Ok(matched),
        }
    }

    /// Runs an arbitrary stage sequence: validates it (the error names
    /// the first unsupported stage), then applies the stages in order to
    /// the primary collection's documents.
    pub fn aggregate(&self, stages: Vec<Stage>) -> (r: Result<Vec<Document>, PipelineError>)
        ensures
            (forall|i: int| 0 <= i < stages@.len() ==> stage_valid(#[trigger] stages@[i].dv()))
                ==> (match run_stages_spec(stages_dv(stages@), self.store.sv(), self.source_dv()) {
                Option::Some(t) => r is Ok && dvs_of(r->Ok_0@) == t,
                Option::None => r == Result::<Vec<Document>, PipelineError>::Err(
                    PipelineError::NumericOverflow,
                ),
            }),
            !(forall|i: int| 0 <= i < stages@.len() ==> stage_valid(#[trigger] stages@[i].dv()))
                ==> (r matches Result::Err(e) && e matches PipelineError::Configuration {
                stage_index,
            } && stage_index < stages@.len() && !stage_valid(stages@[stage_index as int].dv())
                && (forall|j: int|
                0 <= j < stage_index ==> stage_valid(#[trigger] stages@[j].dv()))),
    {
        match Pipeline::new(stages) {
            Result::Ok(p) => {
                let src = self.source();
                p.run(&self.store, src)
            },
            Result::Err(e) => Err(e),
        }
    }
}

} // verus!
