//! Model configuration: the recognized decoding options, their validation,
//! and the configuration fingerprint that keys the model cache.
//!
//! Fractional decoding parameters (length normalization, word penalty, the
//! maximum length factor) are held in thousandths, so that the whole
//! configuration consists of exact values and two configurations can be
//! compared field by field.

use vstd::prelude::*;
use vstd::string::StringExecFns;

verus! {

/// The full configuration of one translation model: model and vocabulary
/// paths plus the decoding parameters the backend recognizes.
#[derive(Clone)]
pub struct Config {
    pub models: Vec<String>,
    pub vocabs: Vec<String>,
    pub beam_size: u64,
    /// Length normalization exponent, in thousandths.
    pub normalize_milli: u64,
    /// Per-word penalty, in thousandths.
    pub word_penalty_milli: u64,
    pub max_length_break: u64,
    pub mini_batch_words: u64,
    /// Maximum output/input length ratio, in thousandths.
    pub max_length_factor_milli: u64,
    pub cpu_threads: u64,
    pub gemm_precision: String,
    pub alignment: String,
}

/// The mathematical value of a configuration: every field as a sequence or
/// an integer.
#[verifier::ext_equal]
pub ghost struct ConfigV {
    pub models: Seq<Seq<char>>,
    pub vocabs: Seq<Seq<char>>,
    pub beam_size: u64,
    pub normalize_milli: u64,
    pub word_penalty_milli: u64,
    pub max_length_break: u64,
    pub mini_batch_words: u64,
    pub max_length_factor_milli: u64,
    pub cpu_threads: u64,
    pub gemm_precision: Seq<char>,
    pub alignment: Seq<char>,
}

impl View for Config {
    type V = ConfigV;

    open spec fn view(&self) -> ConfigV {
        ConfigV {
            models: self.models@.map_values(|s: String| s@),
            vocabs: self.vocabs@.map_values(|s: String| s@),
            beam_size: self.beam_size,
            normalize_milli: self.normalize_milli,
            word_penalty_milli: self.word_penalty_milli,
            max_length_break: self.max_length_break,
            mini_batch_words: self.mini_batch_words,
            max_length_factor_milli: self.max_length_factor_milli,
            cpu_threads: self.cpu_threads,
            gemm_precision: self.gemm_precision@,
            alignment: self.alignment@,
        }
    }
}

/// A malformed configuration, reported by validation.
#[derive(Clone, Copy, PartialEq, Eq, Structural, Debug)]
pub enum ConfigError {
    /// No model path is given, or one of them is empty.
    MissingModelPath,
    /// No vocabulary path is given, or one of them is empty.
    MissingVocabPath,
}

/// The model paths are present and none is empty.
pub open spec fn models_ok(c: ConfigV) -> bool {
    c.models.len() > 0 && (forall|i: int| 0 <= i < c.models.len() ==> c.models[i].len() > 0)
}

/// The vocabulary paths are present and none is empty.
pub open spec fn vocabs_ok(c: ConfigV) -> bool {
    c.vocabs.len() > 0 && (forall|i: int| 0 <= i < c.vocabs.len() ==> c.vocabs[i].len() > 0)
}

/// A configuration a model can be loaded from.
pub open spec fn config_ok(c: ConfigV) -> bool {
    models_ok(c) && vocabs_ok(c)
}

/// The cache's identity key for a configuration. The full configuration is
/// its own fingerprint: the finest stable derivation, so two configurations
/// that differ in any parameter trivially have different fingerprints.
pub open spec fn fingerprint_of(c: Config) -> ConfigV {
    c@
}

/// Every path in `v` is non-empty.
fn all_paths_nonempty(v: &Vec<String>) -> (r: bool)
    ensures
        r == (forall|i: int| 0 <= i < v@.len() ==> (#[trigger] v@[i])@.len() > 0),
{
    let mut k: usize = 0;
    while k < v.len()
        invariant
            k <= v@.len(),
            forall|i: int| 0 <= i < k ==> (#[trigger] v@[i])@.len() > 0,
        decreases v@.len() - k,
    {
        if v[k].as_str().is_empty() {
            return false;
        }
        k = k + 1;
    }
    true
}

impl Config {
    /// Checks that this configuration is well-formed: returns `Ok` exactly on
    /// the configurations a model can be loaded from, and otherwise says
    /// which kind of path is missing (model paths are checked first).
    pub fn validate(&self) -> (r: Result<(), ConfigError>)
        ensures
            r is Ok <==> config_ok(self@),
            !models_ok(self@) ==> r == Result::<(), ConfigError>::Err(
                ConfigError::MissingModelPath,
            ),
            models_ok(self@) && !vocabs_ok(self@) ==> r == Result::<(), ConfigError>::Err(
                ConfigError::MissingVocabPath,
            ),
    {
        proof {
            assert(self@.models.len() == self.models@.len());
            assert(self@.vocabs.len() == self.vocabs@.len());
            assert forall|i: int|
                #![trigger self@.models[i]]
                #![trigger self.models@[i]]
                0 <= i < self.models@.len() implies self@.models[i] == self.models@[i]@ by {}
            assert forall|i: int|
                #![trigger self@.vocabs[i]]
                #![trigger self.vocabs@[i]]
                0 <= i < self.vocabs@.len() implies self@.vocabs[i] == self.vocabs@[i]@ by {}
        }
        if self.models.len() == 0 || !all_paths_nonempty(&self.models) {
            Err(ConfigError::MissingModelPath)
        } else if self.vocabs.len() == 0 || !all_paths_nonempty(&self.vocabs) {
            Err(ConfigError::MissingVocabPath)
        } else {
            Ok(())
        }
    }
}

/// `dir` and `file` joined by a single separator.
fn join_path(dir: &str, file: &str) -> (r: String)
    ensures
        r@ == dir@ + "/"@ + file@,
{
    let mut s = dir.to_owned();
    s.append("/");
    s.append(file);
    s
}

/// Two sequences of paths are equal as values.
fn paths_eq(a: &Vec<String>, b: &Vec<String>) -> (r: bool)
    ensures
        r == (a@.map_values(|s: String| s@) == b@.map_values(|s: String| s@)),
{
    let ghost av = a@.map_values(|s: String| s@);
    let ghost bv = b@.map_values(|s: String| s@);
    if a.len() != b.len() {
        assert(av.len() != bv.len());
        return false;
    }
    let mut k: usize = 0;
    while k < a.len()
        invariant
            k <= a@.len(),
            a@.len() == b@.len(),
            av == a@.map_values(|s: String| s@),
            bv == b@.map_values(|s: String| s@),
            forall|i: int| 0 <= i < k ==> av[i] == bv[i],
        decreases a@.len() - k,
    {
        if !(a[k] == b[k]) {
            assert(av[k as int] != bv[k as int]);
            return false;
        }
        k = k + 1;
    }
    proof {
        assert(av =~= bv);
    }
    true
}

/// Fingerprints are faithful: two configurations share a fingerprint
/// exactly when they are equal in every parameter, so configurations that
/// differ anywhere never collide in the cache.
pub proof fn lemma_fingerprint_faithful(a: Config, b: Config)
    ensures
        fingerprint_of(a) == fingerprint_of(b) <==> a@ == b@,
{
}

/// Two configurations have the same fingerprint, that is, they are equal in
/// every field.
pub fn same_fingerprint(a: &Config, b: &Config) -> (r: bool)
    ensures
        r == (fingerprint_of(*a) == fingerprint_of(*b)),
{
    let r = paths_eq(&a.models, &b.models) && paths_eq(&a.vocabs, &b.vocabs) && a.beam_size
        == b.beam_size && a.normalize_milli == b.normalize_milli && a.word_penalty_milli
        == b.word_penalty_milli && a.max_length_break == b.max_length_break && a.mini_batch_words
        == b.mini_batch_words && a.max_length_factor_milli == b.max_length_factor_milli
        && a.cpu_threads == b.cpu_threads && a.gemm_precision == b.gemm_precision && a.alignment
        == b.alignment;
    proof {
        if r {
            assert(a@ =~= b@);
        }
    }
    r
}

/// Builds the configuration for a model directory: one model file and a
/// source and a target vocabulary under `data_path`, with the default
/// decoding parameters (greedy beam, full length normalization, no word
/// penalty, soft alignment).
pub fn create_config(data_path: &str, model: &str, src_vocab: &str, tgt_vocab: &str) -> (c: Config)
    ensures
        c@.models =~= seq![data_path@ + "/"@ + model@],
        c@.vocabs =~= seq![data_path@ + "/"@ + src_vocab@, data_path@ + "/"@ + tgt_vocab@],
        c@.beam_size == 1,
        c@.normalize_milli == 1000,
        c@.word_penalty_milli == 0,
        c@.max_length_break == 128,
        c@.mini_batch_words == 1024,
        c@.max_length_factor_milli == 2000,
        c@.cpu_threads == 1,
        c@.gemm_precision == "int8shiftAlphaAll"@,
        c@.alignment == "soft"@,
{
    let mut models: Vec<String> = Vec::new();
    models.push(join_path(data_path, model));
    let mut vocabs: Vec<String> = Vec::new();
    vocabs.push(join_path(data_path, src_vocab));
    vocabs.push(join_path(data_path, tgt_vocab));
    Config {
        models,
        vocabs,
        beam_size: 1,
        normalize_milli: 1000,
        word_penalty_milli: 0,
        max_length_break: 128,
        mini_batch_words: 1024,
        max_length_factor_milli: 2000,
        cpu_threads: 1,
        gemm_precision: String::from_str("int8shiftAlphaAll"),
        alignment: String::from_str("soft"),
    }
}

} // verus!
