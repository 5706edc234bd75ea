use bergamot::cache::ModelHandle;
use bergamot::config::Config;
use bergamot::config::ConfigError;
use bergamot::config::create_config;
use bergamot::service::BlockingService;
use bergamot::service::ModelLoadError;
use bergamot::service::PivotError;
use bergamot::service::PivotJob;
use bergamot::service::PivotStage;
use bergamot::service::TranslationError;
use bergamot::service::TranslationJob;

fn enes_config() -> Config {
    create_config("/models/enes", "model.intgemm.bin", "vocab.esen.spm", "vocab.esen.spm")
}

fn esde_config() -> Config {
    create_config("/models/esde", "model.intgemm.bin", "vocab.es.spm", "vocab.de.spm")
}

/// A stand-in backend: a fixed per-sentence lexicon, applied to each batch.
fn lexicon(text: &str) -> String {
    match text {
        "hello" => "hola".to_string(),
        "world" => "mundo".to_string(),
        "good morning" => "buenos dias".to_string(),
        "hola" => "hallo".to_string(),
        "mundo" => "welt".to_string(),
        other => format!("es:{}", other),
    }
}

fn infer_batch(batch: &[String]) -> Vec<String> {
    batch.iter().map(|t| lexicon(t)).collect()
}

fn run_job(mut job: TranslationJob) -> Vec<String> {
    loop {
        let batch = match job.next_batch() {
            Some(b) => b.clone(),
            None => break,
        };
        let outputs = infer_batch(&batch);
        job.batch_completed(outputs).expect("batch output count must match");
    }
    job.finish()
}

fn run_pivot(mut job: PivotJob) -> Vec<String> {
    loop {
        let batch = match job.next_batch() {
            Some(b) => b.clone(),
            None => break,
        };
        let outputs = infer_batch(&batch);
        job.batch_completed(outputs).expect("batch output count must match");
    }
    job.finish()
}

fn loaded(service: &mut BlockingService, config: Config) -> ModelHandle {
    service.load_model(config).expect("configuration must be valid")
}

fn translate_all(service: &BlockingService, model: &ModelHandle, inputs: &[String]) -> Vec<String> {
    let inputs: Vec<String> = inputs.to_vec();
    let job = service.translate(model, &inputs).expect("model must be loaded");
    run_job(job)
}

#[test]
fn translate_single_sentence() {
    let mut service = BlockingService::new(256);
    let handle = loaded(&mut service, enes_config());
    let results = translate_all(&service, &handle, &["hello".to_string()]);
    assert_eq!(results, vec!["hola".to_string()]);
}

#[test]
fn translate_empty_input_returns_empty() {
    let mut service = BlockingService::new(256);
    let handle = loaded(&mut service, enes_config());
    let results = translate_all(&service, &handle, &[]);
    assert_eq!(results, Vec::<String>::new());
}

#[test]
fn translate_two_sentences_in_order() {
    let mut service = BlockingService::new(256);
    let handle = loaded(&mut service, enes_config());
    let results =
        translate_all(&service, &handle, &["hello".to_string(), "world".to_string()]);
    assert_eq!(results, vec!["hola".to_string(), "mundo".to_string()]);
}

#[test]
fn translate_many_sentences_keeps_order_and_length() {
    let mut service = BlockingService::new(4);
    let handle = loaded(&mut service, enes_config());
    let inputs: Vec<String> = (0..150).map(|i| format!("sentence {}", i)).collect();
    let job = service.translate(&handle, &inputs).expect("model must be loaded");
    let results = run_job(job);
    assert_eq!(results.len(), inputs.len());
    for (i, input) in inputs.iter().enumerate() {
        assert_eq!(results[i], format!("es:{}", input));
    }
}

#[test]
fn duplicate_load_reuses_cached_model() {
    let mut service = BlockingService::new(256);
    let first = loaded(&mut service, enes_config());
    let second = loaded(&mut service, enes_config());
    assert_eq!(first.id(), second.id());
    assert_eq!(service.load_count(), 1);
    assert_eq!(service.model_count(), 1);
}

#[test]
fn distinct_configs_load_separately() {
    let mut service = BlockingService::new(256);
    let first = loaded(&mut service, enes_config());
    let second = loaded(&mut service, esde_config());
    assert_ne!(first.id(), second.id());
    assert_eq!(service.load_count(), 2);
    assert_eq!(service.model_count(), 2);
}

#[test]
fn malformed_config_leaves_cache_unchanged() {
    let mut service = BlockingService::new(256);
    let _ = loaded(&mut service, enes_config());
    assert_eq!(service.model_count(), 1);
    let mut bad = esde_config();
    bad.vocabs.clear();
    let result = service.load_model(bad);
    assert_eq!(
        result,
        Err(ModelLoadError::BadConfig(ConfigError::MissingVocabPath))
    );
    assert_eq!(service.model_count(), 1);
    assert_eq!(service.load_count(), 1);
}

#[test]
fn missing_model_path_is_rejected() {
    let mut service = BlockingService::new(256);
    let mut bad = enes_config();
    bad.models.clear();
    let result = service.load_model(bad);
    assert_eq!(
        result,
        Err(ModelLoadError::BadConfig(ConfigError::MissingModelPath))
    );
    assert_eq!(service.model_count(), 0);
}

#[test]
fn referenced_model_is_never_evicted() {
    let mut service = BlockingService::new(1);
    let enes = loaded(&mut service, enes_config());
    // the cache is full and `enes` is still held, so loading another model
    // exceeds the capacity instead of evicting it
    let esde = loaded(&mut service, esde_config());
    assert_eq!(service.model_count(), 2);
    assert!(service.translate(&enes, &Vec::new()).is_ok());
    assert!(service.translate(&esde, &Vec::new()).is_ok());
}

#[test]
fn unreferenced_model_is_evicted_under_pressure() {
    let mut service = BlockingService::new(1);
    let enes = loaded(&mut service, enes_config());
    service.release(&enes);
    let esde = loaded(&mut service, esde_config());
    // the unreferenced enes entry made room for esde
    assert_eq!(service.model_count(), 1);
    assert_eq!(
        service.translate(&enes, &Vec::new()).err(),
        Some(TranslationError::ModelNotLoaded)
    );
    assert!(service.translate(&esde, &Vec::new()).is_ok());
    // loading enes again is a fresh load, not a cache hit
    let again = loaded(&mut service, enes_config());
    assert_ne!(again.id(), enes.id());
    assert_eq!(service.load_count(), 3);
}

#[test]
fn translate_with_unknown_handle_is_rejected() {
    let mut service = BlockingService::new(256);
    let handle = loaded(&mut service, enes_config());
    let other = BlockingService::new(256);
    let inputs = vec!["hello".to_string()];
    assert_eq!(
        other.translate(&handle, &inputs).err(),
        Some(TranslationError::ModelNotLoaded)
    );
}

#[test]
fn wrong_output_count_fails_the_batch() {
    let mut service = BlockingService::new(256);
    let handle = loaded(&mut service, enes_config());
    let inputs = vec!["hello".to_string(), "world".to_string()];
    let mut job = service.translate(&handle, &inputs).expect("model must be loaded");
    let _ = job.next_batch().expect("one batch is pending");
    let result = job.batch_completed(vec!["hola".to_string()]);
    assert_eq!(result, Err(TranslationError::OutputCountMismatch));
}

#[test]
fn pivot_translates_through_both_models() {
    let mut service = BlockingService::new(256);
    let enes = loaded(&mut service, enes_config());
    let esde = loaded(&mut service, esde_config());
    let inputs = vec!["hello".to_string(), "world".to_string()];
    let job = service.pivot(&enes, &esde, &inputs).expect("models must be loaded");
    let results = run_pivot(job);
    assert_eq!(results, vec!["hallo".to_string(), "welt".to_string()]);
}

#[test]
fn pivot_equals_translating_twice() {
    let mut service = BlockingService::new(256);
    let enes = loaded(&mut service, enes_config());
    let esde = loaded(&mut service, esde_config());
    let inputs = vec!["hello".to_string(), "world".to_string(), "good morning".to_string()];
    let pivot_job = service.pivot(&enes, &esde, &inputs).expect("models must be loaded");
    let pivoted = run_pivot(pivot_job);
    let stage1 = translate_all(&service, &enes, &inputs);
    let stage2 = translate_all(&service, &esde, &stage1);
    assert_eq!(pivoted, stage2);
}

#[test]
fn pivot_empty_input_returns_empty() {
    let mut service = BlockingService::new(256);
    let enes = loaded(&mut service, enes_config());
    let esde = loaded(&mut service, esde_config());
    let job = service.pivot(&enes, &esde, &Vec::new()).expect("models must be loaded");
    let results = run_pivot(job);
    assert_eq!(results, Vec::<String>::new());
}

#[test]
fn pivot_with_unknown_handle_names_the_failing_stage() {
    let mut service = BlockingService::new(256);
    let enes = loaded(&mut service, enes_config());
    let stranger = BlockingService::new(256);
    let inputs = vec!["hello".to_string()];
    assert_eq!(
        stranger.pivot(&enes, &enes, &inputs).err(),
        Some(PivotError { stage: PivotStage::First, cause: TranslationError::ModelNotLoaded })
    );
    // evict one model so that only the other stage's model is loaded
    let mut tight = BlockingService::new(1);
    let first = loaded(&mut tight, enes_config());
    let second = loaded(&mut tight, esde_config());
    tight.release(&second);
    let _third = loaded(
        &mut tight,
        create_config("/models/encs", "model.intgemm.bin", "vocab.en.spm", "vocab.cs.spm"),
    );
    assert_eq!(
        tight.pivot(&first, &second, &inputs).err(),
        Some(PivotError { stage: PivotStage::Second, cause: TranslationError::ModelNotLoaded })
    );
    assert_eq!(
        tight.pivot(&second, &first, &inputs).err(),
        Some(PivotError { stage: PivotStage::First, cause: TranslationError::ModelNotLoaded })
    );
}

#[test]
fn backend_failure_fails_the_whole_job() {
    let mut service = BlockingService::new(256);
    let handle = loaded(&mut service, enes_config());
    let inputs = vec!["hello".to_string()];
    let job = service.translate(&handle, &inputs).expect("model must be loaded");
    assert_eq!(job.batch_failed(), TranslationError::Inference);
}

#[test]
fn pivot_backend_failure_names_the_stage() {
    let mut service = BlockingService::new(256);
    let enes = loaded(&mut service, enes_config());
    let esde = loaded(&mut service, esde_config());
    let inputs = vec!["hello".to_string()];

    let first_stage = service.pivot(&enes, &esde, &inputs).expect("models must be loaded");
    assert_eq!(first_stage.stage(), PivotStage::First);
    assert_eq!(
        first_stage.batch_failed(),
        PivotError { stage: PivotStage::First, cause: TranslationError::Inference }
    );

    let mut second_stage = service.pivot(&enes, &esde, &inputs).expect("models must be loaded");
    let batch = second_stage.next_batch().expect("stage one has a batch").clone();
    second_stage.batch_completed(infer_batch(&batch)).expect("batch output count must match");
    assert_eq!(second_stage.stage(), PivotStage::Second);
    assert_eq!(
        second_stage.batch_failed(),
        PivotError { stage: PivotStage::Second, cause: TranslationError::Inference }
    );
}

#[test]
fn pivot_wrong_output_count_names_the_stage() {
    let mut service = BlockingService::new(256);
    let enes = loaded(&mut service, enes_config());
    let esde = loaded(&mut service, esde_config());
    let inputs = vec!["hello".to_string(), "world".to_string()];
    let mut job = service.pivot(&enes, &esde, &inputs).expect("models must be loaded");
    let result = job.batch_completed(vec!["hola".to_string()]);
    assert_eq!(
        result,
        Err(PivotError { stage: PivotStage::First, cause: TranslationError::OutputCountMismatch })
    );
}

#[test]
fn zero_capacity_keeps_only_models_in_use() {
    let mut service = BlockingService::new(0);
    let enes = loaded(&mut service, enes_config());
    // the held model stays usable even though the capacity is zero
    let results = translate_all(&service, &enes, &["hello".to_string()]);
    assert_eq!(results, vec!["hola".to_string()]);
    service.release(&enes);
    // with its last reference gone, the next load evicts it
    let esde = loaded(&mut service, esde_config());
    assert_eq!(service.model_count(), 1);
    assert_eq!(
        service.translate(&enes, &Vec::new()).err(),
        Some(TranslationError::ModelNotLoaded)
    );
    assert!(service.translate(&esde, &Vec::new()).is_ok());
}
