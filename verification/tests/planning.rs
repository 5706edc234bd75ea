use bergamot::batch::count_words;
use bergamot::batch::plan_batches;
use bergamot::cache::TranslationModel;
use bergamot::config::ConfigError;
use bergamot::config::create_config;
use bergamot::config::same_fingerprint;

#[test]
fn word_counts_are_exact() {
    assert_eq!(count_words("hello"), 1);
    assert_eq!(count_words("hello world"), 2);
    assert_eq!(count_words(""), 0);
    assert_eq!(count_words("   "), 0);
    assert_eq!(count_words("  a  bc  d "), 3);
}

#[test]
fn batches_respect_the_sentence_limit() {
    let inputs: Vec<String> = (0..5).map(|i| format!("s{}", i)).collect();
    let batches = plan_batches(&inputs, 2, 1000);
    assert_eq!(batches.len(), 3);
    assert_eq!(batches[0].len(), 2);
    assert_eq!(batches[1].len(), 2);
    assert_eq!(batches[2].len(), 1);
    let rejoined: Vec<String> = batches.into_iter().flatten().collect();
    assert_eq!(rejoined, inputs);
}

#[test]
fn batches_respect_the_word_limit() {
    let inputs = vec![
        "one two three".to_string(),
        "four five".to_string(),
        "six".to_string(),
    ];
    let batches = plan_batches(&inputs, 10, 4);
    assert_eq!(batches.len(), 2);
    assert_eq!(batches[0], vec!["one two three".to_string()]);
    assert_eq!(batches[1], vec!["four five".to_string(), "six".to_string()]);
}

#[test]
fn an_oversize_sentence_forms_its_own_batch() {
    let inputs = vec!["a b c d e f".to_string(), "g".to_string()];
    let batches = plan_batches(&inputs, 10, 3);
    assert_eq!(batches.len(), 2);
    assert_eq!(batches[0].len(), 1);
    assert_eq!(batches[1], vec!["g".to_string()]);
}

#[test]
fn no_input_plans_no_batches() {
    let inputs: Vec<String> = Vec::new();
    let batches = plan_batches(&inputs, 8, 100);
    assert!(batches.is_empty());
}

#[test]
fn created_config_holds_the_default_parameters() {
    let config = create_config("/data", "model.bin", "src.spm", "tgt.spm");
    assert_eq!(config.models, vec!["/data/model.bin".to_string()]);
    assert_eq!(
        config.vocabs,
        vec!["/data/src.spm".to_string(), "/data/tgt.spm".to_string()]
    );
    assert_eq!(config.beam_size, 1);
    assert_eq!(config.normalize_milli, 1000);
    assert_eq!(config.word_penalty_milli, 0);
    assert_eq!(config.max_length_break, 128);
    assert_eq!(config.mini_batch_words, 1024);
    assert_eq!(config.max_length_factor_milli, 2000);
    assert_eq!(config.cpu_threads, 1);
    assert_eq!(config.gemm_precision, "int8shiftAlphaAll");
    assert_eq!(config.alignment, "soft");
}

#[test]
fn fingerprints_separate_differing_configs() {
    let a = create_config("/data", "model.bin", "src.spm", "tgt.spm");
    let mut b = create_config("/data", "model.bin", "src.spm", "tgt.spm");
    assert!(same_fingerprint(&a, &b));
    b.beam_size = 4;
    assert!(!same_fingerprint(&a, &b));
    let c = create_config("/data", "model.bin", "src.spm", "other.spm");
    assert!(!same_fingerprint(&a, &c));
}

#[test]
fn validation_names_the_missing_piece() {
    let good = create_config("/data", "model.bin", "src.spm", "tgt.spm");
    assert!(TranslationModel::from_config(good).is_ok());

    let mut no_vocab = create_config("/data", "model.bin", "src.spm", "tgt.spm");
    no_vocab.vocabs.clear();
    assert_eq!(
        TranslationModel::from_config(no_vocab).err(),
        Some(ConfigError::MissingVocabPath)
    );

    let mut empty_vocab = create_config("/data", "model.bin", "src.spm", "tgt.spm");
    empty_vocab.vocabs[0] = String::new();
    assert_eq!(
        TranslationModel::from_config(empty_vocab).err(),
        Some(ConfigError::MissingVocabPath)
    );

    let mut no_model = create_config("/data", "model.bin", "src.spm", "tgt.spm");
    no_model.models.clear();
    assert_eq!(
        TranslationModel::from_config(no_model).err(),
        Some(ConfigError::MissingModelPath)
    );

    let mut empty_model = create_config("/data", "model.bin", "src.spm", "tgt.spm");
    empty_model.models[0] = String::new();
    assert_eq!(
        TranslationModel::from_config(empty_model).err(),
        Some(ConfigError::MissingModelPath)
    );
}
