//! The service facade: owns the model cache, hands out model handles, and
//! runs translations as jobs.
//!
//! The inference backend is an outside service, so a translation is a
//! synchronous exchange driven by the embedder: `translate` forms the
//! batches and returns a job; the embedder takes each pending batch with
//! `next_batch`, carries it to the backend, and hands the outputs back with
//! `batch_completed`; `finish` then returns the outputs in the callers'
//! order. A pivot (two-hop) translation chains two such jobs, feeding the
//! first stage's outputs to the second stage as inputs.

use vstd::prelude::*;

use crate::batch::aligned;
use crate::batch::batch_admissible;
use crate::batch::batches_view;
use crate::batch::flatten_batches;
use crate::batch::lemma_correspondence;
use crate::batch::plan_batches;
use crate::batch::slot_index;
use crate::batch::texts_view;
use crate::cache::CacheEntryV;
use crate::cache::ModelCache;
use crate::cache::ModelHandle;
use crate::cache::TranslationModel;
use crate::cache::counts_below_max;
use crate::cache::first_unpinned;
use crate::cache::retained_in;
use crate::config::Config;
use crate::config::ConfigError;
use crate::config::config_ok;
use crate::config::models_ok;
use crate::config::vocabs_ok;

verus! {

/// The most requests one dispatch batch may carry.
pub const MAX_BATCH_SENTENCES: usize = 64;

/// The most cumulative words one dispatch batch may carry, unless a single
/// request alone exceeds it.
pub const MAX_BATCH_WORDS: usize = 1024;

/// A model could not be loaded.
#[derive(Clone, Copy, PartialEq, Eq, Structural, Debug)]
pub enum ModelLoadError {
    /// The configuration is malformed; the cache is left unchanged.
    BadConfig(ConfigError),
}

/// A translation could not be carried out.
#[derive(Clone, Copy, PartialEq, Eq, Structural, Debug)]
pub enum TranslationError {
    /// The handle does not name a loaded model.
    ModelNotLoaded,
    /// The backend answered a batch with the wrong number of outputs.
    OutputCountMismatch,
    /// The backend failed while processing a batch, as recorded by
    /// `batch_failed`; every request of that batch fails with it.
    Inference,
}

/// Which half of a two-hop translation an error belongs to.
#[derive(Clone, Copy, PartialEq, Eq, Structural, Debug)]
pub enum PivotStage {
    /// The source-to-pivot stage, under the first model.
    First,
    /// The pivot-to-target stage, under the second model.
    Second,
}

/// A pivot translation could not be carried out: the failing stage, and why
/// it failed there.
#[derive(Clone, Copy, PartialEq, Eq, Structural, Debug)]
pub struct PivotError {
    pub stage: PivotStage,
    pub cause: TranslationError,
}

/// One translation in flight: the dispatch batches for one model, and the
/// backend outputs collected so far, one output batch per dispatched batch.
pub struct TranslationJob {
    model: ModelHandle,
    batches: Vec<Vec<String>>,
    collected: Vec<Vec<String>>,
    inputs: Ghost<Seq<Seq<char>>>,
}

impl TranslationJob {
    /// The identity of the model this job translates with.
    pub closed spec fn model_spec(&self) -> u64 {
        self.model.id_spec()
    }

    /// The request texts, in the callers' order.
    pub closed spec fn inputs_spec(&self) -> Seq<Seq<char>> {
        self.inputs@
    }

    /// The dispatch batches, in order.
    pub closed spec fn batches_spec(&self) -> Seq<Seq<Seq<char>>> {
        batches_view(self.batches@)
    }

    /// The backend's answers so far, one batch of outputs per dispatched
    /// batch, in dispatch order.
    pub closed spec fn responses_spec(&self) -> Seq<Seq<Seq<char>>> {
        batches_view(self.collected@)
    }

    /// The job's result: the per-batch answers, concatenated back into the
    /// callers' order.
    pub open spec fn output_spec(&self) -> Seq<Seq<char>> {
        self.responses_spec().flatten()
    }

    /// The job's consistency: the batches partition the inputs in order, and
    /// every answer received so far matches its batch in size.
    pub open spec fn wf(&self) -> bool {
        &&& self.batches_spec().flatten() == self.inputs_spec()
        &&& self.responses_spec().len() <= self.batches_spec().len()
        &&& forall|k: int|
            0 <= k < self.responses_spec().len() ==> (#[trigger] self.responses_spec()[k]).len()
                == self.batches_spec()[k].len()
    }

    /// Every batch has been answered.
    pub open spec fn done(&self) -> bool {
        self.responses_spec().len() == self.batches_spec().len()
    }

    /// Each dispatch batch obeys the given limits.
    pub open spec fn batches_admissible(&self, max_sentences: usize, max_words: usize) -> bool {
        forall|k: int|
            0 <= k < self.batches_spec().len() ==> batch_admissible(
                #[trigger] self.batches_spec()[k],
                max_sentences,
                max_words,
            )
    }

    /// The batch to carry to the backend next, or nothing when every batch
    /// has been answered.
    pub fn next_batch(&self) -> (r: Option<&Vec<String>>)
        requires
            self.wf(),
        ensures
            match r {
                Some(b) => !self.done() && texts_view(b@) == self.batches_spec()[self.responses_spec().len() as int],
                None => self.done(),
            },
    {
        proof {
            assert(self.batches_spec().len() == self.batches@.len());
            assert(self.responses_spec().len() == self.collected@.len());
        }
        if self.collected.len() < self.batches.len() {
            let b = &self.batches[self.collected.len()];
            proof {
                assert(!self.done());
                assert(self.batches_spec()[self.collected@.len() as int] == texts_view(b@));
                assert(texts_view(b@) == self.batches_spec()[self.responses_spec().len() as int]);
            }
            Some(b)
        } else {
            proof {
                assert(self.done());
            }
            None
        }
    }

    /// Records the backend's answer for the next pending batch. The answer
    /// is accepted exactly when it holds one output per request of that
    /// batch; a wrong count is rejected and recorded nowhere, and the batch
    /// fails as a whole.
    pub fn batch_completed(&mut self, outputs: Vec<String>) -> (r: Result<(), TranslationError>)
        requires
            old(self).wf(),
            !old(self).done(),
        ensures
            final(self).wf(),
            final(self).model_spec() == old(self).model_spec(),
            final(self).inputs_spec() == old(self).inputs_spec(),
            final(self).batches_spec() == old(self).batches_spec(),
            outputs@.len() == old(self).batches_spec()[old(self).responses_spec().len() as int].len()
                ==> r is Ok && final(self).responses_spec() == old(self).responses_spec().push(
                texts_view(outputs@),
            ),
            outputs@.len() != old(self).batches_spec()[old(self).responses_spec().len() as int].len()
                ==> r == Result::<(), TranslationError>::Err(TranslationError::OutputCountMismatch)
                && final(self).responses_spec() == old(self).responses_spec(),
    {
        proof {
            assert(self.batches_spec().len() == self.batches@.len());
            assert(self.responses_spec().len() == self.collected@.len());
        }
        let k = self.collected.len();
        proof {
            assert(self.batches_spec()[k as int] == texts_view(self.batches@[k as int]@));
        }
        if outputs.len() == self.batches[k].len() {
            let ghost pre = self.responses_spec();
            self.collected.push(outputs);
            proof {
                assert(self.responses_spec() =~= pre.push(texts_view(outputs@)));
            }
            Ok(())
        } else {
            Err(TranslationError::OutputCountMismatch)
        }
    }

    /// Records that the backend failed while processing the pending batch:
    /// the job is given up as a whole — every request of it fails with the
    /// returned error, and no partial output is ever handed back.
    pub fn batch_failed(self) -> (e: TranslationError)
        ensures
            e == TranslationError::Inference,
    {
        TranslationError::Inference
    }

    /// The outputs, one per request and in the callers' order: the answers
    /// of every batch, concatenated. There are exactly as many outputs as
    /// there were inputs.
    pub fn finish(&self) -> (r: Vec<String>)
        requires
            self.wf(),
            self.done(),
        ensures
            texts_view(r@) == self.output_spec(),
            r@.len() == self.inputs_spec().len(),
    {
        let r = flatten_batches(&self.collected);
        proof {
            assert(aligned(self.responses_spec(), self.batches_spec()));
            lemma_correspondence(self.responses_spec(), self.batches_spec());
            assert(texts_view(r@).len() == r@.len());
        }
        r
    }
}

/// Order preservation: a finished job answers every request, and the output
/// at a request's slot is exactly the backend's answer for that request —
/// output and input decompose into the same (batch, offset) slots. Together
/// with `lemma_slot_injective`, no caller can receive another caller's
/// result, however requests were batched together.
pub proof fn lemma_translate_correspondence(t: TranslationJob)
    requires
        t.wf(),
        t.done(),
    ensures
        t.output_spec().len() == t.inputs_spec().len(),
        forall|k: int, j: int|
            0 <= k < t.batches_spec().len() && 0 <= j < t.batches_spec()[k].len() ==> {
                &&& 0 <= #[trigger] slot_index(t.batches_spec(), k, j) < t.inputs_spec().len()
                &&& t.inputs_spec()[slot_index(t.batches_spec(), k, j)] == t.batches_spec()[k][j]
                &&& t.output_spec()[slot_index(t.batches_spec(), k, j)] == t.responses_spec()[k][j]
            },
{
    assert(aligned(t.responses_spec(), t.batches_spec()));
    lemma_correspondence(t.responses_spec(), t.batches_spec());
    assert forall|k: int, j: int|
        0 <= k < t.batches_spec().len() && 0 <= j < t.batches_spec()[k].len() implies {
        &&& 0 <= #[trigger] slot_index(t.batches_spec(), k, j) < t.inputs_spec().len()
        &&& t.inputs_spec()[slot_index(t.batches_spec(), k, j)] == t.batches_spec()[k][j]
        &&& t.output_spec()[slot_index(t.batches_spec(), k, j)] == t.responses_spec()[k][j]
    } by {
        lemma_correspondence(t.responses_spec(), t.batches_spec());
    }
}

/// A two-hop translation in flight: the first stage translates the callers'
/// texts with the first model; when it completes, its outputs become, in
/// the same order, the inputs of the second stage under the second model.
///
/// Failure policy: fail fast. A backend failure in either stage fails the
/// whole pivot call; no untranslated text is ever passed through silently.
pub struct PivotJob {
    first: TranslationJob,
    second: Option<TranslationJob>,
    second_model: ModelHandle,
}

impl PivotJob {
    /// The first-stage job.
    pub closed spec fn first_job(&self) -> TranslationJob {
        self.first
    }

    /// The second-stage job, once the first stage has completed.
    pub closed spec fn second_job(&self) -> Option<TranslationJob> {
        self.second
    }

    /// The identity of the second stage's model.
    pub closed spec fn second_model_spec(&self) -> u64 {
        self.second_model.id_spec()
    }

    /// The original request texts.
    pub open spec fn inputs_spec(&self) -> Seq<Seq<char>> {
        self.first_job().inputs_spec()
    }

    /// The backend's answers to the first stage so far.
    pub open spec fn first_responses(&self) -> Seq<Seq<Seq<char>>> {
        self.first_job().responses_spec()
    }

    /// The backend's answers to the second stage so far.
    pub open spec fn second_responses(&self) -> Seq<Seq<Seq<char>>> {
        match self.second_job() {
            Some(s) => s.responses_spec(),
            None => Seq::empty(),
        }
    }

    /// The pivot's result: the second stage's output.
    pub open spec fn output_spec(&self) -> Seq<Seq<char>> {
        self.second_responses().flatten()
    }

    /// The pivot's consistency: the first stage is a consistent job, and
    /// once it is done, the second stage is a consistent job whose inputs
    /// are exactly the first stage's outputs, under the second model.
    pub open spec fn wf(&self) -> bool {
        &&& self.first_job().wf()
        &&& self.first_job().batches_admissible(MAX_BATCH_SENTENCES, MAX_BATCH_WORDS)
        &&& match self.second_job() {
            None => !self.first_job().done(),
            Some(s) => {
                &&& self.first_job().done()
                &&& s.wf()
                &&& s.inputs_spec() == self.first_job().output_spec()
                &&& s.model_spec() == self.second_model_spec()
                &&& s.batches_admissible(MAX_BATCH_SENTENCES, MAX_BATCH_WORDS)
            },
        }
    }

    /// Both stages have been answered in full.
    pub open spec fn done(&self) -> bool {
        match self.second_job() {
            Some(s) => s.done(),
            None => false,
        }
    }

    /// The batch to carry to the backend next — a first-stage batch until
    /// the first stage is done, then a second-stage batch — or nothing when
    /// the pivot is complete.
    pub fn next_batch(&self) -> (r: Option<&Vec<String>>)
        requires
            self.wf(),
        ensures
            match r {
                Some(b) => !self.done() && (if !self.first_job().done() {
                    texts_view(b@) == self.first_job().batches_spec()[self.first_responses().len() as int]
                } else {
                    texts_view(b@)
                        == self.second_job()->Some_0.batches_spec()[self.second_responses().len() as int]
                }),
                None => self.done(),
            },
    {
        match &self.second {
            None => self.first.next_batch(),
            Some(s) => s.next_batch(),
        }
    }

    /// The stage whose batches are currently being dispatched: the first
    /// until every first-stage batch is answered, the second from then on.
    pub fn stage(&self) -> (s: PivotStage)
        requires
            self.wf(),
        ensures
            s == PivotStage::First <==> !self.first_job().done(),
            s == PivotStage::Second <==> self.first_job().done(),
    {
        match &self.second {
            None => PivotStage::First,
            Some(_) => PivotStage::Second,
        }
    }

    /// Records that the backend failed while processing the pending batch:
    /// the pivot call is given up as a whole, and the returned error names
    /// the stage the failure happened in.
    pub fn batch_failed(self) -> (e: PivotError)
        requires
            self.wf(),
        ensures
            e.cause == TranslationError::Inference,
            e.stage == PivotStage::First <==> !self.first_job().done(),
            e.stage == PivotStage::Second <==> self.first_job().done(),
    {
        let stage = self.stage();
        PivotError { stage, cause: TranslationError::Inference }
    }

    /// Records the backend's answer for the next pending batch of whichever
    /// stage is running. Completing the first stage constructs the second
    /// stage from its outputs. As in a single-stage job, an answer of the
    /// wrong size is rejected, recorded nowhere, and fails the batch, with
    /// an error naming the stage it happened in.
    pub fn batch_completed(&mut self, outputs: Vec<String>) -> (r: Result<(), PivotError>)
        requires
            old(self).wf(),
            !old(self).done(),
        ensures
            final(self).wf(),
            final(self).inputs_spec() == old(self).inputs_spec(),
            final(self).second_model_spec() == old(self).second_model_spec(),
            final(self).first_job().model_spec() == old(self).first_job().model_spec(),
            final(self).first_job().batches_spec() == old(self).first_job().batches_spec(),
            !old(self).first_job().done() ==> {
                let expected = old(self).first_job().batches_spec()[old(
                    self,
                ).first_responses().len() as int].len();
                &&& (outputs@.len() == expected ==> r is Ok && final(self).first_responses() == old(
                    self,
                ).first_responses().push(texts_view(outputs@)) && final(self).second_responses()
                    == Seq::<Seq<Seq<char>>>::empty())
                &&& (outputs@.len() != expected ==> r == Result::<(), PivotError>::Err(
                    (PivotError {
                        stage: PivotStage::First,
                        cause: TranslationError::OutputCountMismatch,
                    }),
                ) && final(self).first_responses() == old(self).first_responses() && final(self).second_job() is None)
            },
            old(self).first_job().done() ==> {
                let expected = old(self).second_job()->Some_0.batches_spec()[old(
                    self,
                ).second_responses().len() as int].len();
                &&& final(self).first_responses() == old(self).first_responses()
                &&& (outputs@.len() == expected ==> r is Ok && final(self).second_responses()
                    == old(self).second_responses().push(texts_view(outputs@)))
                &&& (outputs@.len() != expected ==> r == Result::<(), PivotError>::Err(
                    (PivotError {
                        stage: PivotStage::Second,
                        cause: TranslationError::OutputCountMismatch,
                    }),
                ) && final(self).second_responses() == old(self).second_responses())
            },
    {
        match &mut self.second {
            None => {
                match self.first.batch_completed(outputs) {
                    Err(cause) => Err(PivotError { stage: PivotStage::First, cause }),
                    Ok(()) => {
                        if self.first.next_batch().is_none() {
                            let stage1_output = self.first.finish();
                            let s = make_job(self.second_model, &stage1_output);
                            proof {
                                assert(texts_view(stage1_output@) == self.first.output_spec());
                            }
                            self.second = Some(s);
                        }
                        Ok(())
                    },
                }
            },
            Some(s) => match s.batch_completed(outputs) {
                Err(cause) => Err(PivotError { stage: PivotStage::Second, cause }),
                Ok(()) => Ok(()),
            },
        }
    }

    /// The pivot's outputs, one per original request and in the callers'
    /// order: the second stage's outputs.
    pub fn finish(&self) -> (r: Vec<String>)
        requires
            self.wf(),
            self.done(),
        ensures
            texts_view(r@) == self.output_spec(),
            r@.len() == self.inputs_spec().len(),
    {
        match &self.second {
            Some(s) => {
                let r = s.finish();
                proof {
                    lemma_translate_correspondence(*s);
                    lemma_translate_correspondence(self.first_job());
                }
                r
            },
            None => {
                // unreachable: done() requires the second stage to exist
                proof {
                    assert(false);
                }
                Vec::new()
            },
        }
    }
}

/// Pivoting is translating twice: a finished pivot whose stages received
/// the same answers as two finished single-stage jobs — the first on the
/// pivot's inputs, the second on the first's outputs — produces exactly the
/// second job's output, position for position.
pub proof fn lemma_pivot_composes(p: PivotJob, t1: TranslationJob, t2: TranslationJob)
    requires
        p.wf(),
        p.done(),
        t1.wf(),
        t1.done(),
        t2.wf(),
        t2.done(),
        t1.inputs_spec() == p.inputs_spec(),
        t1.responses_spec() == p.first_responses(),
        t2.inputs_spec() == t1.output_spec(),
        t2.responses_spec() == p.second_responses(),
    ensures
        p.output_spec() == t2.output_spec(),
        p.output_spec().len() == p.inputs_spec().len(),
{
    lemma_translate_correspondence(t1);
    lemma_translate_correspondence(t2);
}

/// Constructs a job: plans the batches for the inputs under the default
/// limits and awaits the backend's answers.
fn make_job(model: ModelHandle, inputs: &Vec<String>) -> (j: TranslationJob)
    ensures
        j.wf(),
        j.model_spec() == model.id_spec(),
        j.inputs_spec() == texts_view(inputs@),
        j.responses_spec() == Seq::<Seq<Seq<char>>>::empty(),
        j.batches_admissible(MAX_BATCH_SENTENCES, MAX_BATCH_WORDS),
        j.done() <==> inputs@.len() == 0,
{
    let batches = plan_batches(inputs, MAX_BATCH_SENTENCES, MAX_BATCH_WORDS);
    let j = TranslationJob {
        model,
        batches,
        collected: Vec::new(),
        inputs: Ghost(texts_view(inputs@)),
    };
    proof {
        assert(j.responses_spec() =~= Seq::<Seq<Seq<char>>>::empty());
        assert(j.batches_spec().len() == 0 ==> j.batches_spec() =~= Seq::<Seq<Seq<char>>>::empty());
        if inputs@.len() == 0 {
            assert(j.batches_spec().len() == 0);
        } else {
            assert(j.batches_spec().len() > 0);
        }
    }
    j
}

/// The synchronous translation service: one model cache, owned for the
/// service's lifetime, and the batching limits under which jobs are formed.
pub struct BlockingService {
    cache: ModelCache,
}

impl BlockingService {
    /// The service's model cache.
    pub closed spec fn cache_spec(&self) -> ModelCache {
        self.cache
    }

    /// The service is consistent exactly when its cache is.
    pub open spec fn wf(&self) -> bool {
        self.cache_spec().wf()
    }

    /// The handle names a model the cache currently holds.
    pub open spec fn has_model(&self, h: ModelHandle) -> bool {
        exists|i: int|
            0 <= i < self.cache_spec()@.len() && (#[trigger] self.cache_spec()@[i]).id
                == h.id_spec()
    }

    /// A service with an empty cache of the given capacity. A zero capacity
    /// disables caching beyond the models callers still hold.
    pub fn new(cache_size: usize) -> (s: BlockingService)
        ensures
            s.wf(),
            s.cache_spec()@ == Seq::<CacheEntryV>::empty(),
            s.cache_spec().capacity_spec() == cache_size,
            s.cache_spec().load_count_spec() == 0,
    {
        BlockingService { cache: ModelCache::new(cache_size) }
    }

    /// How many models the cache currently holds.
    pub fn model_count(&self) -> (r: usize)
        ensures
            r == self.cache_spec()@.len(),
    {
        self.cache.len()
    }

    /// How many models were ever constructed: the number of cache misses.
    pub fn load_count(&self) -> (r: u64)
        ensures
            r == self.cache_spec().load_count_spec(),
    {
        self.cache.load_count()
    }

    /// Loads a model, deduplicated by the configuration fingerprint: a
    /// malformed configuration is rejected and the cache is left unchanged;
    /// a configuration already in the cache yields its existing handle and
    /// costs no load; a new configuration costs exactly one load, evicting
    /// at most the least-recently-used unreferenced entry, and only when the
    /// cache is full. A model some caller still holds is never evicted.
    pub fn load_model(&mut self, config: Config) -> (r: Result<ModelHandle, ModelLoadError>)
        requires
            old(self).wf(),
            old(self).cache_spec().load_count_spec() < u64::MAX,
            counts_below_max(old(self).cache_spec()@),
        ensures
            final(self).wf(),
            final(self).cache_spec().capacity_spec() == old(self).cache_spec().capacity_spec(),
            r is Ok <==> config_ok(config@),
            !models_ok(config@) ==> r == Result::<ModelHandle, ModelLoadError>::Err(
                ModelLoadError::BadConfig(ConfigError::MissingModelPath),
            ),
            models_ok(config@) && !vocabs_ok(config@) ==> r == Result::<
                ModelHandle,
                ModelLoadError,
            >::Err(ModelLoadError::BadConfig(ConfigError::MissingVocabPath)),
            r is Err ==> final(self).cache_spec()@ == old(self).cache_spec()@ && final(self).cache_spec().load_count_spec() == old(self).cache_spec().load_count_spec(),
            r is Ok ==> {
                let h = r->Ok_0;
                let pre = old(self).cache_spec()@;
                let post = final(self).cache_spec()@;
                // a fingerprint hit: the existing handle, no new load
                &&& (exists|i: int|
                    0 <= i < pre.len() && (#[trigger] pre[i]).config == config@) ==> {
                    let i = choose|i: int|
                        0 <= i < pre.len() && (#[trigger] pre[i]).config == config@;
                    &&& h.id_spec() == pre[i].id
                    &&& post =~= pre.remove(i).push(
                        CacheEntryV {
                            config: pre[i].config,
                            id: pre[i].id,
                            ref_count: (pre[i].ref_count + 1) as u64,
                        },
                    )
                    &&& final(self).cache_spec().load_count_spec() == old(
                        self,
                    ).cache_spec().load_count_spec()
                }
                // a miss: one load, a fresh identity, eviction only of the
                // least-recently-used unreferenced entry, only under pressure
                &&& (forall|i: int| 0 <= i < pre.len() ==> (#[trigger] pre[i]).config != config@)
                    ==> {
                    let retained = if pre.len() < old(self).cache_spec().capacity_spec()
                        || first_unpinned(pre) == -1 {
                        pre
                    } else {
                        pre.remove(first_unpinned(pre))
                    };
                    &&& h.id_spec() == old(self).cache_spec().load_count_spec()
                    &&& final(self).cache_spec().load_count_spec() == old(
                        self,
                    ).cache_spec().load_count_spec() + 1
                    &&& post =~= retained.push(
                        CacheEntryV { config: config@, id: h.id_spec(), ref_count: 1 },
                    )
                }
                // pinning: every entry some caller still holds survives
                &&& forall|j: int|
                    0 <= j < pre.len() && (#[trigger] pre[j]).ref_count > 0 ==> retained_in(
                        pre[j],
                        post,
                    )
            },
    {
        match TranslationModel::from_config(config) {
            Err(e) => Err(ModelLoadError::BadConfig(e)),
            Ok(m) => Ok(self.cache.get_or_load(m)),
        }
    }

    /// Gives back one reference to a loaded model; with its last reference
    /// gone the model stays cached but becomes eligible for eviction. A
    /// stale or over-released handle changes nothing.
    pub fn release(&mut self, h: &ModelHandle)
        requires
            old(self).wf(),
        ensures
            final(self).wf(),
            final(self).cache_spec().capacity_spec() == old(self).cache_spec().capacity_spec(),
            final(self).cache_spec().load_count_spec() == old(self).cache_spec().load_count_spec(),
            (exists|i: int|
                0 <= i < old(self).cache_spec()@.len() && (#[trigger] old(self).cache_spec()@[i]).id
                    == h.id_spec() && old(self).cache_spec()@[i].ref_count > 0) ==> {
                let pre = old(self).cache_spec()@;
                let i = choose|i: int|
                    0 <= i < pre.len() && (#[trigger] pre[i]).id == h.id_spec()
                        && pre[i].ref_count > 0;
                final(self).cache_spec()@ =~= pre.update(
                    i,
                    CacheEntryV {
                        config: pre[i].config,
                        id: pre[i].id,
                        ref_count: (pre[i].ref_count - 1) as u64,
                    },
                )
            },
            (forall|i: int|
                0 <= i < old(self).cache_spec()@.len() ==> !((#[trigger] old(
                    self,
                ).cache_spec()@[i]).id == h.id_spec() && old(self).cache_spec()@[i].ref_count > 0))
                ==> final(self).cache_spec()@ == old(self).cache_spec()@,
    {
        self.cache.release(h);
    }

    /// Begins a translation of `inputs` with the given model, which must
    /// already be loaded: the requests are batched under the service's
    /// limits, in arrival order, and the returned job carries them through
    /// the backend exchange. An empty input sequence yields a job that is
    /// complete at once, with the empty output.
    pub fn translate(&self, model: &ModelHandle, inputs: &Vec<String>) -> (r: Result<
        TranslationJob,
        TranslationError,
    >)
        ensures
            r is Ok <==> self.has_model(*model),
            !self.has_model(*model) ==> r == Result::<TranslationJob, TranslationError>::Err(
                TranslationError::ModelNotLoaded,
            ),
            r is Ok ==> {
                let j = r->Ok_0;
                &&& j.wf()
                &&& j.model_spec() == model.id_spec()
                &&& j.inputs_spec() == texts_view(inputs@)
                &&& j.responses_spec() == Seq::<Seq<Seq<char>>>::empty()
                &&& j.batches_admissible(MAX_BATCH_SENTENCES, MAX_BATCH_WORDS)
                &&& (j.done() <==> inputs@.len() == 0)
            },
    {
        let present = self.cache.contains_handle(model);
        proof {
            assert(self.cache_spec() == self.cache);
            assert(present == self.has_model(*model));
        }
        if !present {
            return Err(TranslationError::ModelNotLoaded);
        }
        Ok(make_job(*model, inputs))
    }

    /// Begins a pivot translation: `inputs` go through `first_model`, and
    /// the resulting texts, in the same order, through `second_model`. Both
    /// models must already be loaded, and an unloaded model is reported with
    /// the stage it would have served. The per-index correspondence of the
    /// whole exchange is that of the two chained stages.
    pub fn pivot(&self, first_model: &ModelHandle, second_model: &ModelHandle, inputs: &Vec<
        String,
    >) -> (r: Result<PivotJob, PivotError>)
        ensures
            r is Ok <==> self.has_model(*first_model) && self.has_model(*second_model),
            !self.has_model(*first_model) ==> r == Result::<PivotJob, PivotError>::Err(
                (PivotError {
                    stage: PivotStage::First,
                    cause: TranslationError::ModelNotLoaded,
                }),
            ),
            self.has_model(*first_model) && !self.has_model(*second_model) ==> r == Result::<
                PivotJob,
                PivotError,
            >::Err(
                (PivotError {
                    stage: PivotStage::Second,
                    cause: TranslationError::ModelNotLoaded,
                }),
            ),
            r is Ok ==> {
                let p = r->Ok_0;
                &&& p.wf()
                &&& p.inputs_spec() == texts_view(inputs@)
                &&& p.first_job().model_spec() == first_model.id_spec()
                &&& p.second_model_spec() == second_model.id_spec()
                &&& p.first_responses() == Seq::<Seq<Seq<char>>>::empty()
                &&& p.second_responses() == Seq::<Seq<Seq<char>>>::empty()
                &&& (p.done() <==> inputs@.len() == 0)
            },
    {
        let first_present = self.cache.contains_handle(first_model);
        let second_present = self.cache.contains_handle(second_model);
        proof {
            assert(self.cache_spec() == self.cache);
            assert(first_present == self.has_model(*first_model));
            assert(second_present == self.has_model(*second_model));
        }
        if !first_present {
            return Err(
                PivotError { stage: PivotStage::First, cause: TranslationError::ModelNotLoaded },
            );
        }
        if !second_present {
            return Err(
                PivotError { stage: PivotStage::Second, cause: TranslationError::ModelNotLoaded },
            );
        }
        let first = make_job(*first_model, inputs);
        let second = if first.next_batch().is_none() {
            // no first-stage work: the second stage starts from the empty
            // first-stage output at once
            let stage1_output = first.finish();
            Some(make_job(*second_model, &stage1_output))
        } else {
            None
        };
        let p = PivotJob { first, second, second_model: *second_model };
        proof {
            if inputs@.len() == 0 {
                assert(p.second_responses() =~= Seq::<Seq<Seq<char>>>::empty());
            }
        }
        Ok(p)
    }
}

} // verus!
